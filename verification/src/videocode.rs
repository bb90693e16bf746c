//! Frames, macroblocks and the records that carry coded frames.

use crate::bitio::{
    bits_of_bytes, lemma_bits_of_packed, packed, padding_len, BitReader, BitWriter,
};
use crate::blocks::{
    block_bits, coefficients_in_range, decode_block, lemma_block_bits_len, lemma_block_round_trip,
    Block,
};
use crate::endian::{append_bytes, le_of_u32, lemma_le_round_trip_u32, write_u32_le};
use crate::error::CodecError;
use crate::motion::{cells_ok, rle_bytes, BlockType, MotionMap};
use crate::planes::Plane;
use vstd::prelude::*;

verus! {

/// How a frame is coded.
#[derive(Clone, Copy, Debug, PartialEq, Eq, Structural)]
pub enum FrameType {
    /// By itself.
    IFrame,
    /// Predicted from the support frame before it.
    PFrame,
    /// Predicted from the support frames before and after it.
    BFrame,
}

impl FrameType {
    /// The byte that names the type in a frame record.
    pub open spec fn spec_code(self) -> u8 {
        match self {
            FrameType::IFrame => 0,
            FrameType::PFrame => 1,
            FrameType::BFrame => 2,
        }
    }

    /// The byte that names the type in a frame record.
    #[verifier::when_used_as_spec(spec_code)]
    pub fn code(self) -> (byte: u8)
        ensures
            byte == self.spec_code(),
    {
        match self {
            FrameType::IFrame => 0,
            FrameType::PFrame => 1,
            FrameType::BFrame => 2,
        }
    }

    /// The type that `byte` names, if any.
    pub fn from_code(byte: u8) -> (t: Option<FrameType>)
        ensures
            byte > 2 <==> t is None,
            t is Some ==> t->Some_0.spec_code() == byte,
    {
        if byte == 0 {
            Some(FrameType::IFrame)
        } else if byte == 1 {
            Some(FrameType::PFrame)
        } else if byte == 2 {
            Some(FrameType::BFrame)
        } else {
            None
        }
    }
}

/// A 16×16 luma square with the 8×8 chroma squares that lie on it: four
/// luma blocks (top left, top right, bottom left, bottom right), then U,
/// then V.
#[derive(Debug)]
pub struct MacroBlock<T>(pub [Block<T>; 6]);

impl<T: Copy> Clone for MacroBlock<T> {
    fn clone(&self) -> (copy: Self)
        ensures
            copy == *self,
    {
        MacroBlock(self.0)
    }
}

impl<T: Copy> Copy for MacroBlock<T> {

}

impl<T: Copy> MacroBlock<T> {
    /// A macroblock with every sample equal to `value`.
    pub fn new(value: T) -> (mb: MacroBlock<T>)
        ensures
            forall|k: int, i: int| 0 <= k < 6 && 0 <= i < 64 ==> #[trigger] mb.0[k].0[i] == value,
    {
        MacroBlock([Block::new(value);6])
    }
}

/// Three planes of one picture: luma at full size, and two chroma planes at
/// half the size in each direction. The planes are as large as the picture
/// rounded up to whole macroblocks.
#[derive(Debug)]
pub struct VideoFrame<T> {
    pub y_plane: Plane<T>,
    pub u_plane: Plane<T>,
    pub v_plane: Plane<T>,
    pub source_width: u32,
    pub source_height: u32,
    pub width: u32,
    pub height: u32,
}

impl<T: Copy> Clone for VideoFrame<T> {
    fn clone(&self) -> (copy: Self)
        ensures
            copy.y_plane.data@ == self.y_plane.data@,
            copy.u_plane.data@ == self.u_plane.data@,
            copy.v_plane.data@ == self.v_plane.data@,
            copy.same_size(self),
            self.wf() ==> copy.wf(),
    {
        VideoFrame {
            y_plane: self.y_plane.clone(),
            u_plane: self.u_plane.clone(),
            v_plane: self.v_plane.clone(),
            source_width: self.source_width,
            source_height: self.source_height,
            width: self.width,
            height: self.height,
        }
    }
}

/// `size` rounded up to a multiple of sixteen.
pub open spec fn round_up_16(size: int) -> int {
    (size + 15) / 16 * 16
}

impl<T: Copy> VideoFrame<T> {
    /// The luma plane covers the picture in whole macroblocks, and the
    /// chroma planes are half as wide and half as high.
    pub open spec fn wf(&self) -> bool {
        &&& self.width == round_up_16(self.source_width as int)
        &&& self.height == round_up_16(self.source_height as int)
        &&& self.y_plane.wf()
        &&& self.u_plane.wf()
        &&& self.v_plane.wf()
        &&& self.y_plane.width == self.width
        &&& self.y_plane.height == self.height
        &&& self.u_plane.width == self.width / 2
        &&& self.u_plane.height == self.height / 2
        &&& self.v_plane.width == self.width / 2
        &&& self.v_plane.height == self.height / 2
    }

    /// Whether `other` has the same planes sizes and picture size.
    pub open spec fn same_size(&self, other: &VideoFrame<T>) -> bool {
        &&& self.width == other.width
        &&& self.height == other.height
        &&& self.source_width == other.source_width
        &&& self.source_height == other.source_height
    }

    /// Whether `mb` holds the macroblock whose top left luma sample is at
    /// column `x` and row `y`.
    pub open spec fn holds_macroblock(&self, x: int, y: int, mb: MacroBlock<T>) -> bool {
        &&& self.y_plane.holds_square(x, y, mb.0[0])
        &&& self.y_plane.holds_square(x + 8, y, mb.0[1])
        &&& self.y_plane.holds_square(x, y + 8, mb.0[2])
        &&& self.y_plane.holds_square(x + 8, y + 8, mb.0[3])
        &&& self.u_plane.holds_square(x / 2, y / 2, mb.0[4])
        &&& self.v_plane.holds_square(x / 2, y / 2, mb.0[5])
    }

    /// Whether `self` is `before` with `mb` copied over the macroblock whose
    /// top left luma sample is at column `x` and row `y`: each luma sample
    /// of the 16×16 square comes from the block of its quadrant, and the
    /// chroma squares at half the column and row come from the last two
    /// blocks.
    pub open spec fn is_with_macroblock(
        &self,
        before: &VideoFrame<T>,
        x: int,
        y: int,
        mb: MacroBlock<T>,
    ) -> bool {
        &&& self.wf()
        &&& self.same_size(before)
        &&& forall|px: int, py: int|
            0 <= px < before.width && 0 <= py < before.height ==> #[trigger] self.y_plane.at(px, py)
                == (if x <= px < x + 16 && y <= py < y + 16 {
                mb.0[(px - x) / 8 + 2 * ((py - y) / 8)].0[(px - x) % 8 + 8 * ((py - y) % 8)]
            } else {
                before.y_plane.at(px, py)
            })
        &&& self.u_plane.is_with_square(&before.u_plane, x / 2, y / 2, mb.0[4])
        &&& self.v_plane.is_with_square(&before.v_plane, x / 2, y / 2, mb.0[5])
    }

    /// A frame for pictures of `width` by `height` pixels, every sample
    /// equal to `value`.
    pub fn new(width: u32, height: u32, value: T) -> (frame: VideoFrame<T>)
        requires
            round_up_16(width as int) * round_up_16(height as int) <= usize::MAX,
            round_up_16(width as int) <= u32::MAX,
            round_up_16(height as int) <= u32::MAX,
        ensures
            frame.wf(),
            frame.source_width == width,
            frame.source_height == height,
            frame.width == round_up_16(width as int),
            frame.height == round_up_16(height as int),
            forall|i: int| 0 <= i < frame.y_plane.data@.len() ==> frame.y_plane.data@[i] == value,
            forall|i: int| 0 <= i < frame.u_plane.data@.len() ==> frame.u_plane.data@[i] == value,
            forall|i: int| 0 <= i < frame.v_plane.data@.len() ==> frame.v_plane.data@[i] == value,
    {
        let plane_width = ((width as u64 + 15) / 16 * 16) as u32;
        let plane_height = ((height as u64 + 15) / 16 * 16) as u32;
        proof {
            lemma_half_area(plane_width as int, plane_height as int);
        }
        VideoFrame {
            y_plane: Plane::new(plane_width, plane_height, value),
            u_plane: Plane::new(plane_width / 2, plane_height / 2, value),
            v_plane: Plane::new(plane_width / 2, plane_height / 2, value),
            source_width: width,
            source_height: height,
            width: plane_width,
            height: plane_height,
        }
    }

    /// Copies the macroblock whose top left luma sample is at column `x` and
    /// row `y` into `block`. The chroma squares start at half the column
    /// and half the row.
    pub fn extract_macroblock(&self, x: u32, y: u32, block: &mut MacroBlock<T>)
        requires
            self.wf(),
            x + 16 <= self.width,
            y + 16 <= self.height,
        ensures
            self.holds_macroblock(x as int, y as int, *final(block)),
    {
        let mut part = block.0[0];
        self.y_plane.extract_block(x, y, &mut part);
        block.0[0] = part;
        self.y_plane.extract_block(x + 8, y, &mut part);
        block.0[1] = part;
        self.y_plane.extract_block(x, y + 8, &mut part);
        block.0[2] = part;
        self.y_plane.extract_block(x + 8, y + 8, &mut part);
        block.0[3] = part;
        self.u_plane.extract_block(x / 2, y / 2, &mut part);
        block.0[4] = part;
        self.v_plane.extract_block(x / 2, y / 2, &mut part);
        block.0[5] = part;
    }
}

impl<T: Copy> VideoFrame<T> {
    /// Copies `block` over the macroblock whose top left luma sample is at
    /// column `x` and row `y`. Every other sample stays.
    pub fn apply_macroblock(&mut self, x: u32, y: u32, block: &MacroBlock<T>)
        requires
            old(self).wf(),
            x + 16 <= old(self).width,
            y + 16 <= old(self).height,
        ensures
            final(self).is_with_macroblock(old(self), x as int, y as int, *block),
    {
        let ghost luma0 = self.y_plane;
        self.y_plane.apply_block(x, y, &block.0[0]);
        let ghost luma1 = self.y_plane;
        self.y_plane.apply_block(x + 8, y, &block.0[1]);
        let ghost luma2 = self.y_plane;
        self.y_plane.apply_block(x, y + 8, &block.0[2]);
        let ghost luma3 = self.y_plane;
        self.y_plane.apply_block(x + 8, y + 8, &block.0[3]);
        self.u_plane.apply_block(x / 2, y / 2, &block.0[4]);
        self.v_plane.apply_block(x / 2, y / 2, &block.0[5]);
        proof {
            assert forall|px: int, py: int|
                0 <= px < self.width && 0 <= py < self.height implies #[trigger] self.y_plane.at(
                px,
                py,
            ) == (if x <= px < x + 16 && y <= py < y + 16 {
                block.0[(px - x) / 8 + 2 * ((py - y) / 8)].0[(px - x) % 8 + 8 * ((py - y) % 8)]
            } else {
                luma0.at(px, py)
            }) by {
                let a = luma1.at(px, py);
                let b = luma2.at(px, py);
                let c = luma3.at(px, py);
            }
        }
    }
}

/// Halving both sides of a rectangle does not enlarge it.
proof fn lemma_half_area(width: int, height: int)
    by (nonlinear_arith)
    requires
        0 <= width,
        0 <= height,
    ensures
        0 <= (width / 2) * (height / 2) <= width * height,
{
}

/// The coefficients of the six blocks of a macroblock.
pub open spec fn coefficients(mb: MacroBlock<i16>) -> Seq<Seq<i16>> {
    Seq::new(6, |k: int| mb.0[k].0@)
}

/// Whether every block can be coded.
pub open spec fn blocks_in_range(blocks: Seq<Seq<i16>>) -> bool {
    forall|k: int| 0 <= k < blocks.len() ==> coefficients_in_range(#[trigger] blocks[k])
}

/// The code of a sequence of blocks: the codes of the blocks, one after the
/// other.
pub open spec fn blocks_bits(blocks: Seq<Seq<i16>>) -> Seq<bool>
    decreases blocks.len(),
{
    if blocks.len() == 0 {
        Seq::empty()
    } else {
        block_bits(blocks[0]) + blocks_bits(blocks.skip(1))
    }
}

/// The code of a macroblock: the codes of its six blocks in their order.
pub open spec fn macroblock_bits(mb: MacroBlock<i16>) -> Seq<bool> {
    block_bits(mb.0[0].0@) + block_bits(mb.0[1].0@) + block_bits(mb.0[2].0@) + block_bits(
        mb.0[3].0@,
    ) + block_bits(mb.0[4].0@) + block_bits(mb.0[5].0@)
}

/// What reading blocks gives, until `count` are there: the blocks and the
/// bits that are left, or the first failure.
#[verifier::opaque]
pub open spec fn decode_blocks(bits: Seq<bool>, count: int, done: Seq<Seq<i16>>) -> Result<
    (Seq<Seq<i16>>, Seq<bool>),
    CodecError,
>
    decreases count - done.len(),
{
    if done.len() >= count {
        Ok((done, bits))
    } else {
        match decode_block(bits) {
            Err(e) => Err(e),
            Ok((block, rest)) => decode_blocks(rest, count, done.push(block)),
        }
    }
}

/// The code of two sequences of blocks, one after the other, is the code of
/// the first and then that of the second.
pub proof fn lemma_blocks_bits_concat(a: Seq<Seq<i16>>, b: Seq<Seq<i16>>)
    ensures
        blocks_bits(a + b) == blocks_bits(a) + blocks_bits(b),
    decreases a.len(),
{
    if a.len() == 0 {
        assert(a + b =~= b);
        assert(blocks_bits(a) + blocks_bits(b) =~= blocks_bits(b));
    } else {
        lemma_blocks_bits_concat(a.skip(1), b);
        assert((a + b).skip(1) =~= a.skip(1) + b);
        assert((a + b)[0] == a[0]);
        assert(blocks_bits(a + b) =~= blocks_bits(a) + blocks_bits(b));
    }
}

/// The code of one block alone.
proof fn lemma_blocks_bits_single(block: Seq<i16>)
    ensures
        blocks_bits(seq![block]) == block_bits(block),
{
    let one = seq![block];
    assert(one.skip(1) =~= Seq::<Seq<i16>>::empty());
    assert(blocks_bits(one.skip(1)) =~= Seq::<bool>::empty());
    assert(blocks_bits(one) =~= block_bits(block));
}

/// The code of a block followed by others.
proof fn lemma_blocks_bits_front(block: Seq<i16>, others: Seq<Seq<i16>>)
    ensures
        blocks_bits(seq![block] + others) == block_bits(block) + blocks_bits(others),
{
    lemma_blocks_bits_single(block);
    lemma_blocks_bits_concat(seq![block], others);
}

/// One more block adds its code at the end.
pub proof fn lemma_blocks_bits_take(blocks: Seq<Seq<i16>>, k: int)
    requires
        0 <= k < blocks.len(),
    ensures
        blocks_bits(blocks.take(k + 1)) == blocks_bits(blocks.take(k)) + block_bits(blocks[k]),
{
    lemma_blocks_bits_single(blocks[k]);
    lemma_blocks_bits_concat(blocks.take(k), seq![blocks[k]]);
    assert(blocks.take(k + 1) =~= blocks.take(k) + seq![blocks[k]]);
}

/// The code of a macroblock is the code of its six blocks.
pub proof fn lemma_macroblock_bits(mb: MacroBlock<i16>)
    ensures
        macroblock_bits(mb) == blocks_bits(coefficients(mb)),
{
    let c = coefficients(mb);
    let s5 = seq![c[5]];
    let s4 = seq![c[4]] + s5;
    let s3 = seq![c[3]] + s4;
    let s2 = seq![c[2]] + s3;
    let s1 = seq![c[1]] + s2;
    let s0 = seq![c[0]] + s1;
    lemma_blocks_bits_single(c[5]);
    lemma_blocks_bits_front(c[4], s5);
    lemma_blocks_bits_front(c[3], s4);
    lemma_blocks_bits_front(c[2], s3);
    lemma_blocks_bits_front(c[1], s2);
    lemma_blocks_bits_front(c[0], s1);
    assert(s0 =~= c);
    assert(macroblock_bits(mb) =~= block_bits(c[0]) + (block_bits(c[1]) + (block_bits(c[2]) + (
    block_bits(c[3]) + (block_bits(c[4]) + block_bits(c[5]))))));
}

/// Reading back the code of blocks within ±1023 gives the blocks, and leaves
/// what followed.
pub proof fn lemma_blocks_round_trip(done: Seq<Seq<i16>>, blocks: Seq<Seq<i16>>, rest: Seq<bool>)
    requires
        blocks_in_range(blocks),
    ensures
        decode_blocks(blocks_bits(blocks) + rest, (done.len() + blocks.len()) as int, done) == Ok::<
            (Seq<Seq<i16>>, Seq<bool>),
            CodecError,
        >((done + blocks, rest)),
    decreases blocks.len(),
{
    reveal(decode_blocks);
    if blocks.len() == 0 {
        assert(blocks_bits(blocks) + rest =~= rest);
        assert(done + blocks =~= done);
    } else {
        let tail = blocks.skip(1);
        let follow = blocks_bits(tail) + rest;
        assert(coefficients_in_range(blocks[0]));
        lemma_block_round_trip(blocks[0], follow);
        assert(blocks_bits(blocks) + rest =~= block_bits(blocks[0]) + follow);
        assert(blocks_in_range(tail)) by {
            assert forall|k: int| 0 <= k < tail.len() implies coefficients_in_range(
                #[trigger] tail[k],
            ) by {
                assert(tail[k] == blocks[k + 1]);
            }
        }
        lemma_blocks_round_trip(done.push(blocks[0]), tail, rest);
        assert(done.push(blocks[0]) + tail =~= done + blocks);
    }
}

impl MacroBlock<i16> {
    /// Whether every coefficient of every block lies within ±1023.
    pub fn in_range(&self) -> (ok: bool)
        ensures
            ok == blocks_in_range(coefficients(*self)),
    {
        let mut k: usize = 0;
        while k < 6
            invariant
                0 <= k <= 6,
                forall|j: int| 0 <= j < k ==> coefficients_in_range(#[trigger] self.0[j].0@),
            decreases 6 - k,
        {
            if !self.0[k].in_range() {
                assert(!coefficients_in_range(coefficients(*self)[k as int]));
                return false;
            }
            k = k + 1;
        }
        assert forall|j: int| 0 <= j < 6 implies coefficients_in_range(
            #[trigger] coefficients(*self)[j],
        ) by {
            assert(coefficients_in_range(self.0[j].0@));
        }
        true
    }

    /// Appends the codes of the six blocks to `writer`. A macroblock with a
    /// coefficient outside ±1023 is refused, and nothing is written.
    pub fn write(&self, writer: &mut BitWriter) -> (r: Result<(), CodecError>)
        requires
            old(writer).wf(),
        ensures
            final(writer).wf(),
            r is Ok <==> blocks_in_range(coefficients(*self)),
            r is Ok ==> final(writer)@ == old(writer)@ + macroblock_bits(*self),
            r is Err ==> r == Err::<(), CodecError>(CodecError::CoefficientRange)
                && final(writer)@ == old(writer)@,
    {
        if !self.in_range() {
            return Err(CodecError::CoefficientRange);
        }
        let ghost before = writer@;
        let ghost c = coefficients(*self);
        let mut k: usize = 0;
        proof {
            assert(c.take(0) =~= Seq::<Seq<i16>>::empty());
            assert(writer@ =~= before + blocks_bits(c.take(0)));
        }
        while k < 6
            invariant
                0 <= k <= 6,
                writer.wf(),
                before == old(writer)@,
                c == coefficients(*self),
                blocks_in_range(c),
                writer@ == before + blocks_bits(c.take(k as int)),
            decreases 6 - k,
        {
            assert(coefficients_in_range(c[k as int]));
            match self.0[k].encode(writer) {
                Ok(()) => {},
                Err(e) => {
                    return Err(e);
                },
            }
            proof {
                lemma_blocks_bits_take(c, k as int);
                assert(writer@ =~= before + blocks_bits(c.take(k + 1)));
            }
            k = k + 1;
        }
        proof {
            assert(c.take(6) =~= c);
            lemma_macroblock_bits(*self);
        }
        Ok(())
    }

    /// The number of bits that `write` would write.
    pub fn get_encoded_size(&self) -> (r: Result<usize, CodecError>)
        ensures
            r is Ok <==> blocks_in_range(coefficients(*self)),
            r is Ok ==> r->Ok_0 == macroblock_bits(*self).len(),
            r is Err ==> r == Err::<usize, CodecError>(CodecError::CoefficientRange),
    {
        if !self.in_range() {
            return Err(CodecError::CoefficientRange);
        }
        let ghost c = coefficients(*self);
        let mut size: usize = 0;
        let mut k: usize = 0;
        proof {
            assert(c.take(0) =~= Seq::<Seq<i16>>::empty());
        }
        while k < 6
            invariant
                0 <= k <= 6,
                c == coefficients(*self),
                blocks_in_range(c),
                size <= k * 1744,
                size == blocks_bits(c.take(k as int)).len(),
            decreases 6 - k,
        {
            assert(coefficients_in_range(c[k as int]));
            let part = match self.0[k].get_encoded_size() {
                Ok(part) => part,
                Err(e) => {
                    return Err(e);
                },
            };
            proof {
                lemma_block_bits_len(c[k as int]);
                lemma_blocks_bits_take(c, k as int);
            }
            size = size + part;
            k = k + 1;
        }
        proof {
            assert(c.take(6) =~= c);
            lemma_macroblock_bits(*self);
        }
        Ok(size)
    }
}

/// Reading `part` blocks and then going on is reading on from the start.
pub proof fn lemma_decode_blocks_split(
    bits: Seq<bool>,
    total: int,
    done: Seq<Seq<i16>>,
    part: int,
    acc: Seq<Seq<i16>>,
)
    requires
        acc.len() <= part,
        done.len() + part <= total,
    ensures
        decode_blocks(bits, total, done + acc) == (match decode_blocks(bits, part, acc) {
            Err(e) => Err(e),
            Ok((blocks, rest)) => decode_blocks(rest, total, done + blocks),
        }),
    decreases part - acc.len(),
{
    reveal(decode_blocks);
    if acc.len() < part {
        match decode_block(bits) {
            Err(e) => {},
            Ok((block, rest)) => {
                lemma_decode_blocks_split(rest, total, done, part, acc.push(block));
                assert((done + acc).push(block) =~= done + acc.push(block));
            },
        }
    }
}

/// The blocks of a sequence of macroblocks, in their order.
pub open spec fn all_blocks(mbs: Seq<MacroBlock<i16>>) -> Seq<Seq<i16>> {
    Seq::new(6 * mbs.len(), |i: int| mbs[i / 6].0[i % 6].0@)
}

/// The blocks of macroblocks are those of all but the last, and then those
/// of the last.
pub proof fn lemma_all_blocks_push(mbs: Seq<MacroBlock<i16>>, mb: MacroBlock<i16>)
    ensures
        all_blocks(mbs.push(mb)) == all_blocks(mbs) + coefficients(mb),
{
    let lhs = all_blocks(mbs.push(mb));
    let rhs = all_blocks(mbs) + coefficients(mb);
    assert(lhs.len() == rhs.len());
    assert forall|i: int| 0 <= i < lhs.len() implies lhs[i] == rhs[i] by {
        if i < 6 * mbs.len() {
            assert(mbs.push(mb)[i / 6] == mbs[i / 6]);
        } else {
            assert(i / 6 == mbs.len());
            assert(i % 6 == i - 6 * mbs.len());
        }
    }
    assert(lhs =~= rhs);
}

impl MacroBlock<i16> {
    /// Reads the six blocks from `reader`: the inverse of `write`. On
    /// failure the macroblock is left as it was.
    pub fn read(&mut self, reader: &mut BitReader) -> (r: Result<(), CodecError>)
        requires
            old(reader).wf(),
        ensures
            final(reader).wf(),
            match decode_blocks(old(reader)@, 6, Seq::empty()) {
                Ok((blocks, rest)) => {
                    &&& r is Ok
                    &&& coefficients(*final(self)) == blocks
                    &&& final(reader)@ == rest
                },
                Err(e) => {
                    &&& r == Err::<(), CodecError>(e)
                    &&& *final(self) == *old(self)
                },
            },
    {
        let ghost bits = reader@;
        let mut temp = *self;
        let mut k: usize = 0;
        proof {
            assert(Seq::new(0, |j: int| temp.0[j].0@) =~= Seq::<Seq<i16>>::empty());
        }
        while k < 6
            invariant
                0 <= k <= 6,
                reader.wf(),
                *self == *old(self),
                bits == old(reader)@,
                decode_blocks(reader@, 6, Seq::new(k as nat, |j: int| temp.0[j].0@))
                    == decode_blocks(bits, 6, Seq::empty()),
            decreases 6 - k,
        {
            let ghost done = Seq::new(k as nat, |j: int| temp.0[j].0@);
            proof {
                reveal(decode_blocks);
            }
            let mut part = temp.0[k];
            match part.decode(reader) {
                Ok(()) => {},
                Err(e) => {
                    return Err(e);
                },
            }
            temp.0[k] = part;
            k = k + 1;
            proof {
                assert(Seq::new(k as nat, |j: int| temp.0[j].0@) =~= done.push(part.0@));
            }
        }
        proof {
            reveal(decode_blocks);
            assert(Seq::new(6, |j: int| temp.0[j].0@) =~= coefficients(temp));
        }
        *self = temp;
        Ok(())
    }
}

/// Reads `count` macroblocks from the bits that `data` carries.
pub fn read_macroblocks(data: &[u8], count: usize) -> (r: Result<
    Vec<MacroBlock<i16>>,
    CodecError,
>)
    ensures
        match decode_blocks(bits_of_bytes(data@), 6 * count, Seq::empty()) {
            Ok((blocks, rest)) => {
                &&& r is Ok
                &&& r->Ok_0@.len() == count
                &&& all_blocks(r->Ok_0@) == blocks
            },
            Err(e) => r == Err::<Vec<MacroBlock<i16>>, CodecError>(e),
        },
{
    let mut reader = BitReader::new(data);
    let ghost bits = reader@;
    let mut result: Vec<MacroBlock<i16>> = Vec::new();
    let mut j: usize = 0;
    proof {
        assert(all_blocks(result@) =~= Seq::<Seq<i16>>::empty());
    }
    while j < count
        invariant
            0 <= j <= count,
            reader.wf(),
            result@.len() == j,
            bits == bits_of_bytes(data@),
            decode_blocks(reader@, 6 * count, all_blocks(result@)) == decode_blocks(
                bits,
                6 * count,
                Seq::empty(),
            ),
        decreases count - j,
    {
        let ghost done = all_blocks(result@);
        proof {
            lemma_decode_blocks_split(reader@, 6 * count, done, 6, Seq::empty());
            assert(done + Seq::<Seq<i16>>::empty() =~= done);
        }
        let mut mb = MacroBlock::new(0i16);
        match mb.read(&mut reader) {
            Ok(()) => {},
            Err(e) => {
                return Err(e);
            },
        }
        proof {
            lemma_all_blocks_push(result@, mb);
        }
        result.push(mb);
        j = j + 1;
    }
    proof {
        reveal(decode_blocks);
    }
    Ok(result)
}

/// A section of a frame record: the length of the payload in four bytes,
/// and the payload.
pub open spec fn section_bytes(payload: Seq<u8>) -> Seq<u8> {
    le_of_u32(payload.len() as u32) + payload
}

/// The body of a frame record: the type byte, then one section for each
/// motion map that the type has, then the section of the coded blocks.
pub open spec fn record_body(t: FrameType, mprev: Seq<u8>, mnext: Seq<u8>, dct: Seq<u8>) -> Seq<
    u8,
> {
    match t {
        FrameType::IFrame => seq![t.spec_code()] + section_bytes(dct),
        FrameType::PFrame => seq![t.spec_code()] + section_bytes(mprev) + section_bytes(dct),
        FrameType::BFrame => seq![t.spec_code()] + section_bytes(mprev) + section_bytes(mnext)
            + section_bytes(dct),
    }
}

/// A frame record: the length of the body in four bytes, and the body.
pub open spec fn record_bytes(t: FrameType, mprev: Seq<u8>, mnext: Seq<u8>, dct: Seq<u8>) -> Seq<
    u8,
> {
    let body = record_body(t, mprev, mnext, dct);
    le_of_u32(body.len() as u32) + body
}

/// The length of a record: four bytes, its type byte, and for each section
/// four bytes and the payload.
pub proof fn lemma_record_len(t: FrameType, mprev: Seq<u8>, mnext: Seq<u8>, dct: Seq<u8>)
    ensures
        section_bytes(dct).len() == 4 + dct.len(),
        record_body(t, mprev, mnext, dct).len() == (match t {
            FrameType::IFrame => 5 + dct.len(),
            FrameType::PFrame => 9 + mprev.len() + dct.len(),
            FrameType::BFrame => 13 + mprev.len() + mnext.len() + dct.len(),
        }),
        record_bytes(t, mprev, mnext, dct).len() == 4 + record_body(t, mprev, mnext, dct).len(),
{
    lemma_le_round_trip_u32(mprev.len() as u32);
    lemma_le_round_trip_u32(mnext.len() as u32);
    lemma_le_round_trip_u32(dct.len() as u32);
    lemma_le_round_trip_u32(record_body(t, mprev, mnext, dct).len() as u32);
}

/// The bytes that carry the code of the macroblocks of a frame.
pub open spec fn dct_bytes(blocks: Seq<MacroBlock<i16>>) -> Seq<u8> {
    packed(blocks_bits(all_blocks(blocks)))
}

/// Reading the coded blocks of a frame back gives its macroblocks, and
/// leaves the zero bits that completed the last byte.
pub proof fn lemma_frame_blocks_round_trip(blocks: Seq<MacroBlock<i16>>)
    requires
        blocks_in_range(all_blocks(blocks)),
    ensures
        decode_blocks(bits_of_bytes(dct_bytes(blocks)), 6 * blocks.len() as int, Seq::empty()) == Ok::<
            (Seq<Seq<i16>>, Seq<bool>),
            CodecError,
        >(
            (
                all_blocks(blocks),
                Seq::new(padding_len(blocks_bits(all_blocks(blocks)).len()), |i: int| false),
            ),
        ),
{
    let all = all_blocks(blocks);
    let bits = blocks_bits(all);
    let padding = Seq::new(padding_len(bits.len()), |i: int| false);
    lemma_bits_of_packed(bits);
    lemma_blocks_round_trip(Seq::empty(), all, padding);
    assert(Seq::<Seq<i16>>::empty() + all =~= all);
}

/// The record of a frame of type `t` with the motion maps `prev` and `next`
/// (as far as the type has them) and the quantized macroblocks `blocks`; or
/// the reason why there is none: a motion beyond the search radius, a
/// coefficient outside ±1023, or a body too long for its length prefix.
#[verifier::opaque]
pub open spec fn coded_frame(
    t: FrameType,
    prev: Seq<BlockType>,
    next: Seq<BlockType>,
    blocks: Seq<MacroBlock<i16>>,
) -> Result<Seq<u8>, CodecError> {
    if t != FrameType::IFrame && !cells_ok(prev) {
        Err(CodecError::VectorRange)
    } else if t == FrameType::BFrame && !cells_ok(next) {
        Err(CodecError::VectorRange)
    } else if !blocks_in_range(all_blocks(blocks)) {
        Err(CodecError::CoefficientRange)
    } else if record_body(t, rle_bytes(prev), rle_bytes(next), dct_bytes(blocks)).len()
        > 0xFFFF_FFFF {
        Err(CodecError::RecordTooLarge)
    } else {
        Ok(record_bytes(t, rle_bytes(prev), rle_bytes(next), dct_bytes(blocks)))
    }
}

/// Appends a section that holds `payload` to `file`.
fn append_section(file: &mut Vec<u8>, payload: &Vec<u8>)
    requires
        payload@.len() <= 0xFFFF_FFFF,
    ensures
        final(file)@ == old(file)@ + section_bytes(payload@),
{
    let size = write_u32_le(payload.len() as u32);
    append_bytes(file, &size);
    append_bytes(file, payload.as_slice());
    proof {
        assert(file@ =~= old(file)@ + section_bytes(payload@));
    }
}

/// Appends the code of `blocks` to `sink`, completed to whole bytes. Gives
/// the sink back unchanged in length where a coefficient is out of range.
fn write_macroblocks(blocks: &[MacroBlock<i16>], sink: Vec<u8>) -> (r: Result<Vec<u8>, CodecError>)
    requires
        sink@.len() == 0,
    ensures
        r is Ok <==> blocks_in_range(all_blocks(blocks@)),
        r is Ok ==> r->Ok_0@ == dct_bytes(blocks@),
        r is Err ==> r == Err::<Vec<u8>, CodecError>(CodecError::CoefficientRange),
{
    let mut writer = BitWriter::new(sink);
    let mut j: usize = 0;
    proof {
        assert(all_blocks(blocks@.take(0)) =~= Seq::<Seq<i16>>::empty());
        assert(writer@ =~= blocks_bits(all_blocks(blocks@.take(0))));
    }
    while j < blocks.len()
        invariant
            0 <= j <= blocks@.len(),
            writer.wf(),
            blocks_in_range(all_blocks(blocks@.take(j as int))),
            writer@ == blocks_bits(all_blocks(blocks@.take(j as int))),
        decreases blocks@.len() - j,
    {
        let ghost head = blocks@.take(j as int);
        let ghost mb = blocks@[j as int];
        proof {
            lemma_all_blocks_push(head, mb);
            assert(head.push(mb) =~= blocks@.take(j + 1));
            lemma_blocks_bits_concat(all_blocks(head), coefficients(mb));
            lemma_macroblock_bits(mb);
        }
        match blocks[j].write(&mut writer) {
            Ok(()) => {},
            Err(e) => {
                proof {
                    if blocks_in_range(all_blocks(blocks@)) {
                        assert forall|k: int| 0 <= k < 6 implies coefficients_in_range(
                            #[trigger] coefficients(mb)[k],
                        ) by {
                            let at = 6 * j + k;
                            assert(at / 6 == j as int && at % 6 == k);
                            assert(all_blocks(blocks@)[at] == coefficients(mb)[k]);
                        }
                    }
                }
                return Err(e);
            },
        }
        proof {
            let extended = all_blocks(head) + coefficients(mb);
            assert forall|k: int| 0 <= k < extended.len() implies coefficients_in_range(
                #[trigger] extended[k],
            ) by {
                if k < all_blocks(head).len() {
                    assert(extended[k] == all_blocks(head)[k]);
                } else {
                    assert(extended[k] == coefficients(mb)[k - all_blocks(head).len()]);
                }
            }
        }
        j = j + 1;
    }
    proof {
        assert(blocks@.take(j as int) =~= blocks@);
    }
    Ok(writer.finish())
}

/// Builds frame records, with scratch buffers that it keeps from one frame
/// to the next.
pub struct Encoder {
    buffer_dct: Vec<u8>,
    buffer_mprev: Vec<u8>,
    buffer_mnext: Vec<u8>,
    data: [u8; 1],
}

impl Encoder {
    /// Between frames the scratch buffers are empty.
    pub closed spec fn wf(&self) -> bool {
        &&& self.buffer_dct@.len() == 0
        &&& self.buffer_mprev@.len() == 0
        &&& self.buffer_mnext@.len() == 0
    }

    /// An encoder with empty scratch buffers.
    pub fn new() -> (encoder: Encoder)
        ensures
            encoder.wf(),
    {
        Encoder {
            buffer_dct: Vec::<u8>::new(),
            buffer_mprev: Vec::<u8>::new(),
            buffer_mnext: Vec::<u8>::new(),
            data: [0u8;1],
        }
    }

    /// Empties the scratch buffers.
    fn reset(&mut self)
        ensures
            final(self).wf(),
    {
        self.buffer_dct.clear();
        self.buffer_mprev.clear();
        self.buffer_mnext.clear();
    }

    /// Fills the scratch buffers with the motion maps that the type has and
    /// with the coded blocks. On failure the buffers are empty again.
    fn fill_buffers(
        &mut self,
        t: FrameType,
        prev: Option<&MotionMap>,
        next: Option<&MotionMap>,
        blocks: &[MacroBlock<i16>],
    ) -> (r: Result<(), CodecError>)
        requires
            old(self).wf(),
            (t != FrameType::IFrame) == prev is Some,
            (t == FrameType::BFrame) == next is Some,
        ensures
            prev is Some && !cells_ok(prev->Some_0.vectors@) ==> r == Err::<(), CodecError>(
                CodecError::VectorRange,
            ),
            !(prev is Some && !cells_ok(prev->Some_0.vectors@)) && next is Some && !cells_ok(
                next->Some_0.vectors@,
            ) ==> r == Err::<(), CodecError>(CodecError::VectorRange),
            !(prev is Some && !cells_ok(prev->Some_0.vectors@)) && !(next is Some && !cells_ok(
                next->Some_0.vectors@,
            )) && !blocks_in_range(all_blocks(blocks@)) ==> r == Err::<(), CodecError>(
                CodecError::CoefficientRange,
            ),
            !(prev is Some && !cells_ok(prev->Some_0.vectors@)) && !(next is Some && !cells_ok(
                next->Some_0.vectors@,
            )) && blocks_in_range(all_blocks(blocks@)) ==> r is Ok,
            r is Err ==> final(self).wf(),
            r is Ok ==> {
                &&& final(self).buffer_dct@ == dct_bytes(blocks@)
                &&& final(self).buffer_mprev@ == (if prev is Some {
                    rle_bytes(prev->Some_0.vectors@)
                } else {
                    Seq::<u8>::empty()
                })
                &&& final(self).buffer_mnext@ == (if next is Some {
                    rle_bytes(next->Some_0.vectors@)
                } else {
                    Seq::<u8>::empty()
                })
            },
    {
        if let Some(map) = prev {
            match map.write(&mut self.buffer_mprev) {
                Ok(()) => {
                    assert(self.buffer_mprev@ =~= rle_bytes(map.vectors@));
                },
                Err(e) => {
                    self.reset();
                    return Err(e);
                },
            }
        }
        if let Some(map) = next {
            match map.write(&mut self.buffer_mnext) {
                Ok(()) => {
                    assert(self.buffer_mnext@ =~= rle_bytes(map.vectors@));
                },
                Err(e) => {
                    self.reset();
                    return Err(e);
                },
            }
        }
        let mut scratch: Vec<u8> = Vec::new();
        core::mem::swap(&mut scratch, &mut self.buffer_dct);
        match write_macroblocks(blocks, scratch) {
            Ok(bytes) => {
                self.buffer_dct = bytes;
                Ok(())
            },
            Err(e) => {
                self.reset();
                Err(e)
            },
        }
    }

    /// Appends the record made of the scratch buffers to `file`, and
    /// returns the length of its body. A body too long for its length
    /// prefix is refused, and nothing is appended.
    fn write_record(&mut self, t: FrameType, file: &mut Vec<u8>) -> (r: Result<u64, CodecError>)
        requires
            t == FrameType::IFrame ==> old(self).buffer_mprev@.len() == 0,
            t != FrameType::BFrame ==> old(self).buffer_mnext@.len() == 0,
        ensures
            final(self).buffer_dct@ == old(self).buffer_dct@,
            final(self).buffer_mprev@ == old(self).buffer_mprev@,
            final(self).buffer_mnext@ == old(self).buffer_mnext@,
            ({
                let body = record_body(
                    t,
                    old(self).buffer_mprev@,
                    old(self).buffer_mnext@,
                    old(self).buffer_dct@,
                );
                if body.len() > 0xFFFF_FFFF {
                    &&& r == Err::<u64, CodecError>(CodecError::RecordTooLarge)
                    &&& final(file)@ == old(file)@
                } else {
                    &&& r == Ok::<u64, CodecError>(body.len() as u64)
                    &&& final(file)@ == old(file)@ + (le_of_u32(body.len() as u32) + body)
                }
            }),
    {
        let ghost mprev = self.buffer_mprev@;
        let ghost mnext = self.buffer_mnext@;
        let ghost dct = self.buffer_dct@;
        proof {
            lemma_record_len(t, mprev, mnext, dct);
        }
        let limit: usize = 0xFFFF_FFFF;
        if self.buffer_dct.len() > limit || self.buffer_mprev.len() > limit
            || self.buffer_mnext.len() > limit {
            return Err(CodecError::RecordTooLarge);
        }
        let dct_size = self.buffer_dct.len() as u64;
        let mprev_size = self.buffer_mprev.len() as u64;
        let mnext_size = self.buffer_mnext.len() as u64;
        let frame_size: u64 = match t {
            FrameType::IFrame => 1 + dct_size + 4,
            FrameType::PFrame => 1 + mprev_size + 4 + dct_size + 4,
            FrameType::BFrame => 1 + mprev_size + 4 + mnext_size + 4 + dct_size + 4,
        };
        proof {
            lemma_record_len(t, mprev, mnext, dct);
        }
        if frame_size > 0xFFFF_FFFF {
            return Err(CodecError::RecordTooLarge);
        }
        let ghost before = file@;
        let prefix = write_u32_le(frame_size as u32);
        append_bytes(file, &prefix);
        self.data[0] = t.code();
        append_bytes(file, &self.data);
        match t {
            FrameType::IFrame => {},
            FrameType::PFrame => {
                append_section(file, &self.buffer_mprev);
            },
            FrameType::BFrame => {
                append_section(file, &self.buffer_mprev);
                append_section(file, &self.buffer_mnext);
            },
        }
        append_section(file, &self.buffer_dct);
        proof {
            assert(self.data@ =~= seq![t.spec_code()]);
            let body = record_body(t, mprev, mnext, dct);
            assert(file@ =~= before + (le_of_u32(body.len() as u32) + body));
        }
        Ok(frame_size)
    }

    /// Appends the record of one frame to `file` and returns the length of
    /// its body. On failure nothing is appended.
    fn encode_frame(
        &mut self,
        t: FrameType,
        prev: Option<&MotionMap>,
        next: Option<&MotionMap>,
        blocks: &[MacroBlock<i16>],
        file: &mut Vec<u8>,
    ) -> (r: Result<u64, CodecError>)
        requires
            old(self).wf(),
            (t != FrameType::IFrame) == prev is Some,
            (t == FrameType::BFrame) == next is Some,
        ensures
            final(self).wf(),
            match coded_frame(
                t,
                if prev is Some {
                    prev->Some_0.vectors@
                } else {
                    Seq::empty()
                },
                if next is Some {
                    next->Some_0.vectors@
                } else {
                    Seq::empty()
                },
                blocks@,
            ) {
                Ok(bytes) => {
                    &&& r == Ok::<u64, CodecError>((bytes.len() - 4) as u64)
                    &&& final(file)@ == old(file)@ + bytes
                },
                Err(e) => {
                    &&& r == Err::<u64, CodecError>(e)
                    &&& final(file)@ == old(file)@
                },
            },
    {
        proof {
            reveal(coded_frame);
            assert(rle_bytes(Seq::<BlockType>::empty()) =~= Seq::<u8>::empty());
            assert(cells_ok(Seq::<BlockType>::empty()));
        }
        match self.fill_buffers(t, prev, next, blocks) {
            Ok(()) => {},
            Err(e) => {
                return Err(e);
            },
        }
        proof {
            lemma_record_len(t, self.buffer_mprev@, self.buffer_mnext@, self.buffer_dct@);
        }
        let written = self.write_record(t, file);
        self.reset();
        written
    }

    /// Appends the record of a frame coded by itself to `file`, and returns
    /// the length of the record's body. `blocks` are the quantized
    /// macroblocks of the frame, row by row. On failure nothing is
    /// appended.
    pub fn encode_i_frame(&mut self, blocks: &[MacroBlock<i16>], file: &mut Vec<u8>) -> (r: Result<
        u64,
        CodecError,
    >)
        requires
            old(self).wf(),
        ensures
            final(self).wf(),
            match coded_frame(FrameType::IFrame, Seq::empty(), Seq::empty(), blocks@) {
                Ok(bytes) => {
                    &&& r == Ok::<u64, CodecError>((bytes.len() - 4) as u64)
                    &&& final(file)@ == old(file)@ + bytes
                },
                Err(e) => {
                    &&& r == Err::<u64, CodecError>(e)
                    &&& final(file)@ == old(file)@
                },
            },
    {
        self.encode_frame(FrameType::IFrame, None, None, blocks, file)
    }

    /// Appends the record of a frame predicted from the support before it:
    /// the motion map and the quantized residual macroblocks.
    pub fn encode_p_frame(
        &mut self,
        blocks: &[MacroBlock<i16>],
        motion: &MotionMap,
        file: &mut Vec<u8>,
    ) -> (r: Result<u64, CodecError>)
        requires
            old(self).wf(),
        ensures
            final(self).wf(),
            match coded_frame(FrameType::PFrame, motion.vectors@, Seq::empty(), blocks@) {
                Ok(bytes) => {
                    &&& r == Ok::<u64, CodecError>((bytes.len() - 4) as u64)
                    &&& final(file)@ == old(file)@ + bytes
                },
                Err(e) => {
                    &&& r == Err::<u64, CodecError>(e)
                    &&& final(file)@ == old(file)@
                },
            },
    {
        self.encode_frame(FrameType::PFrame, Some(motion), None, blocks, file)
    }

    /// Appends the record of a frame predicted from the supports before and
    /// after it: the two motion maps, each computed against its own
    /// support, and the quantized residual macroblocks.
    pub fn encode_b_frame(
        &mut self,
        blocks: &[MacroBlock<i16>],
        motion_prev: &MotionMap,
        motion_next: &MotionMap,
        file: &mut Vec<u8>,
    ) -> (r: Result<u64, CodecError>)
        requires
            old(self).wf(),
        ensures
            final(self).wf(),
            match coded_frame(
                FrameType::BFrame,
                motion_prev.vectors@,
                motion_next.vectors@,
                blocks@,
            ) {
                Ok(bytes) => {
                    &&& r == Ok::<u64, CodecError>((bytes.len() - 4) as u64)
                    &&& final(file)@ == old(file)@ + bytes
                },
                Err(e) => {
                    &&& r == Err::<u64, CodecError>(e)
                    &&& final(file)@ == old(file)@
                },
            },
    {
        self.encode_frame(FrameType::BFrame, Some(motion_prev), Some(motion_next), blocks, file)
    }
}

} // verus!
