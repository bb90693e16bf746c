//! Blocks of 8×8 samples: the zig-zag order, and the entropy coding of a
//! block of quantized coefficients.

use crate::bitio::{
    lemma_varint_round_trip, lemma_width_by_range, varint_bits, varint_value, width_of, BitReader,
    BitWriter,
};
use crate::error::CodecError;
use crate::tables::{
    decode_symbol, huffman_code, lemma_huffman_code_len, lemma_huffman_round_trip, read_symbol,
    symbol_is_coded, symbol_len, write_symbol,
};
use vstd::prelude::*;

verus! {

/// For each position in zig-zag order, the row-major index `x + 8 * y` of
/// the sample that stands there.
pub const UNWRAP_PATTERN: [usize; 64] = [
    0, 1, 8, 16, 9, 2, 3, 10,
    17, 24, 32, 25, 18, 11, 4, 5,
    12, 19, 26, 33, 40, 48, 41, 34,
    27, 20, 13, 6, 7, 14, 21, 28,
    35, 42, 49, 56, 57, 50, 43, 36,
    29, 22, 15, 23, 30, 37, 44, 51,
    58, 59, 52, 45, 38, 31, 39, 46,
    53, 60, 61, 54, 47, 55, 62, 63,
];

/// For each row-major index, its position in zig-zag order.
pub const WRAP_PATTERN: [usize; 64] = [
    0, 1, 5, 6, 14, 15, 27, 28,
    2, 4, 7, 13, 16, 26, 29, 42,
    3, 8, 12, 17, 25, 30, 41, 43,
    9, 11, 18, 24, 31, 40, 44, 53,
    10, 19, 23, 32, 39, 45, 52, 54,
    20, 22, 33, 38, 46, 51, 55, 60,
    21, 34, 37, 47, 50, 56, 59, 61,
    35, 36, 48, 49, 57, 58, 62, 63,
];

/// Both patterns stay inside the block, and each undoes the other.
pub proof fn lemma_zigzag_bijection(i: int)
    requires
        0 <= i < 64,
    ensures
        0 <= UNWRAP_PATTERN[i] < 64,
        0 <= WRAP_PATTERN[i] < 64,
        UNWRAP_PATTERN[WRAP_PATTERN[i] as int] == i,
        WRAP_PATTERN[UNWRAP_PATTERN[i] as int] == i,
{
}

/// Sixty-four samples of an 8×8 square, row by row: the sample at column `x`
/// and row `y` stands at index `x + 8 * y`.
#[derive(Debug)]
pub struct Block<T>(pub [T; 64]);

impl<T: Copy> Clone for Block<T> {
    fn clone(&self) -> (copy: Self)
        ensures
            copy == *self,
    {
        Block(self.0)
    }
}

impl<T: Copy> Copy for Block<T> {

}

/// `src` read through `pattern`: entry `i` of the result is entry
/// `pattern[i]` of `src`.
pub open spec fn permuted<T>(src: Seq<T>, pattern: Seq<usize>) -> Seq<T> {
    Seq::new(pattern.len(), |i: int| src[pattern[i] as int])
}

impl<T: Copy> Block<T> {
    /// A block with every sample equal to `value`.
    pub fn new(value: T) -> (block: Block<T>)
        ensures
            forall|i: int| 0 <= i < 64 ==> block.0[i] == value,
    {
        Block([value;64])
    }

    /// Lays the samples out in zig-zag order: entry `i` of `dst` becomes
    /// entry `UNWRAP_PATTERN[i]` of `self`.
    pub fn unwrap(&self, dst: &mut Block<T>)
        ensures
            final(dst).0@ == permuted(self.0@, UNWRAP_PATTERN@),
    {
        let mut i: usize = 0;
        while i < 64
            invariant
                0 <= i <= 64,
                forall|j: int| 0 <= j < i ==> dst.0[j] == self.0[UNWRAP_PATTERN[j] as int],
            decreases 64 - i,
        {
            proof {
                lemma_zigzag_bijection(i as int);
            }
            dst.0[i] = self.0[UNWRAP_PATTERN[i]];
            i = i + 1;
        }
        assert(dst.0@ =~= permuted(self.0@, UNWRAP_PATTERN@));
    }

    /// Brings samples in zig-zag order back to rows: entry `i` of `dst`
    /// becomes entry `WRAP_PATTERN[i]` of `self`.
    pub fn wrap(&self, dst: &mut Block<T>)
        ensures
            final(dst).0@ == permuted(self.0@, WRAP_PATTERN@),
    {
        let mut i: usize = 0;
        while i < 64
            invariant
                0 <= i <= 64,
                forall|j: int| 0 <= j < i ==> dst.0[j] == self.0[WRAP_PATTERN[j] as int],
            decreases 64 - i,
        {
            proof {
                lemma_zigzag_bijection(i as int);
            }
            dst.0[i] = self.0[WRAP_PATTERN[i]];
            i = i + 1;
        }
        assert(dst.0@ =~= permuted(self.0@, WRAP_PATTERN@));
    }
}

/// Wrapping what was unwrapped, or unwrapping what was wrapped, gives the
/// block back.
pub proof fn lemma_wrap_unwrap<T>(samples: Seq<T>)
    requires
        samples.len() == 64,
    ensures
        permuted(permuted(samples, UNWRAP_PATTERN@), WRAP_PATTERN@) == samples,
        permuted(permuted(samples, WRAP_PATTERN@), UNWRAP_PATTERN@) == samples,
{
    let there = permuted(permuted(samples, UNWRAP_PATTERN@), WRAP_PATTERN@);
    assert forall|i: int| 0 <= i < 64 implies there[i] == samples[i] by {
        lemma_zigzag_bijection(i);
    }
    assert(there =~= samples);
    let back = permuted(permuted(samples, WRAP_PATTERN@), UNWRAP_PATTERN@);
    assert forall|i: int| 0 <= i < 64 implies back[i] == samples[i] by {
        lemma_zigzag_bijection(i);
    }
    assert(back =~= samples);
}

/// The symbol that stands for sixteen zero coefficients.
pub const ZERO_RUN: u8 = 0xF0;

/// The symbol that ends a block whose remaining coefficients are all zero.
pub const END_OF_BLOCK: u8 = 0x00;

/// Whether every coefficient can be coded: sixty-four of them, each within
/// ±1023.
pub open spec fn coefficients_in_range(c: Seq<i16>) -> bool {
    &&& c.len() == 64
    &&& forall|i: int| 0 <= i < 64 ==> -1023 <= #[trigger] c[i] <= 1023
}

/// The index just behind the last coefficient that is not zero; 0 where all
/// are zero.
pub open spec fn significant_len(c: Seq<i16>) -> int
    decreases c.len(),
{
    if c.len() == 0 {
        0
    } else if c.last() != 0 {
        c.len() as int
    } else {
        significant_len(c.drop_last())
    }
}

/// The symbol of a coefficient `value` that follows `run` zeros: the run in
/// the high four bits, the width of the value in the low four.
pub open spec fn run_symbol(run: int, value: int) -> u8 {
    (run * 16 + width_of(value)) as u8
}

/// The code of the coefficients from index `i` up to `end`, with `run`
/// zeros already passed over since the last symbol. Sixteen zeros in a row
/// give a zero-run symbol; a coefficient that is not zero gives the symbol
/// of its run and width, and then its own code.
pub open spec fn ac_bits(c: Seq<i16>, i: int, end: int, run: int) -> Seq<bool>
    decreases end - i,
{
    if i >= end {
        Seq::empty()
    } else if c[i] == 0 {
        if run == 15 {
            huffman_code(ZERO_RUN) + ac_bits(c, i + 1, end, 0)
        } else {
            ac_bits(c, i + 1, end, run + 1)
        }
    } else {
        huffman_code(run_symbol(run, c[i] as int)) + varint_bits(c[i] as int) + ac_bits(
            c,
            i + 1,
            end,
            0,
        )
    }
}

/// The code of a block of coefficients in zig-zag order: the width of the
/// first coefficient as a symbol, its code, the code of the others up to the
/// last that is not zero, and an end-of-block symbol unless the last
/// coefficient itself is not zero.
#[verifier::opaque]
pub open spec fn block_bits(c: Seq<i16>) -> Seq<bool> {
    let end = significant_len(c);
    huffman_code(width_of(c[0] as int) as u8) + varint_bits(c[0] as int) + ac_bits(c, 1, end, 0)
        + (if end < 64 {
        huffman_code(END_OF_BLOCK)
    } else {
        Seq::empty()
    })
}

/// What reading coefficients from position `pos` on gives: the block with
/// the coefficients read put in their places, and the bits that are left.
/// A zero-run symbol moves sixteen positions on; an end-of-block symbol
/// stops; any other symbol moves on by its run, reads a value of its
/// width, and puts it at the position reached.
#[verifier::opaque]
pub open spec fn decode_ac(bits: Seq<bool>, c: Seq<i16>, pos: int) -> Result<
    (Seq<i16>, Seq<bool>),
    CodecError,
>
    decreases (if pos < 64 {
        64 - pos
    } else {
        0
    }),
{
    if pos >= 64 {
        Ok((c, bits))
    } else {
        match decode_symbol(bits) {
            None => Err(CodecError::UnexpectedEof),
            Some((symbol, used)) => {
                let after = bits.skip(used);
                let width = symbol % 16;
                let place = pos + symbol / 16;
                if symbol == ZERO_RUN {
                    decode_ac(after, c, pos + 16)
                } else if symbol == END_OF_BLOCK {
                    Ok((c, after))
                } else if width > 11 {
                    Err(CodecError::WidthTooBig)
                } else if after.len() < width {
                    Err(CodecError::UnexpectedEof)
                } else if place >= 64 {
                    Err(CodecError::CoefficientOverrun)
                } else {
                    decode_ac(
                        after.skip(width as int),
                        c.update(place, varint_value(after.take(width as int)) as i16),
                        place + 1,
                    )
                }
            },
        }
    }
}

/// What reading one block gives: its sixty-four coefficients and the bits
/// that are left, or the reason why the bits are no block.
#[verifier::opaque]
pub open spec fn decode_block(bits: Seq<bool>) -> Result<(Seq<i16>, Seq<bool>), CodecError> {
    match decode_symbol(bits) {
        None => Err(CodecError::UnexpectedEof),
        Some((width, used)) => {
            let after = bits.skip(used);
            if width > 11 {
                Err(CodecError::WidthTooBig)
            } else if after.len() < width {
                Err(CodecError::UnexpectedEof)
            } else {
                decode_ac(
                    after.skip(width as int),
                    Seq::new(64, |i: int| 0i16).update(
                        0,
                        varint_value(after.take(width as int)) as i16,
                    ),
                    1,
                )
            }
        },
    }
}

impl Block<i16> {
    /// The width of `value`: the least `w` with `|value| < 2^w`, and eleven
    /// for every value that needs more.
    pub fn int_width(value: i16) -> (width: usize)
        ensures
            width == width_of(value as int),
            width <= 11,
    {
        proof {
            lemma_width_by_range(value as int);
        }
        if value <= -1024 || value >= 1024 {
            return 11;
        }
        if value <= -512 || value >= 512 {
            return 10;
        }
        if value <= -256 || value >= 256 {
            return 9;
        }
        if value <= -128 || value >= 128 {
            return 8;
        }
        if value <= -64 || value >= 64 {
            return 7;
        }
        if value <= -32 || value >= 32 {
            return 6;
        }
        if value <= -16 || value >= 16 {
            return 5;
        }
        if value <= -8 || value >= 8 {
            return 4;
        }
        if value <= -4 || value >= 4 {
            return 3;
        }
        if value <= -2 || value >= 2 {
            return 2;
        }
        if value <= -1 || value >= 1 {
            return 1;
        }
        0
    }
}

/// Trailing zeros do not count: the significant length of a block is that
/// of any prefix that holds every coefficient that is not zero.
proof fn lemma_significant_len_of_prefix(c: Seq<i16>, end: int)
    requires
        0 < end <= c.len(),
        c[end - 1] == 0,
    ensures
        significant_len(c.take(end)) == significant_len(c.take(end - 1)),
{
    assert(c.take(end).drop_last() =~= c.take(end - 1));
}

impl Block<i16> {
    /// Whether every coefficient lies within ±1023.
    pub fn in_range(&self) -> (ok: bool)
        ensures
            ok == coefficients_in_range(self.0@),
    {
        let mut i: usize = 0;
        while i < 64
            invariant
                0 <= i <= 64,
                forall|j: int| 0 <= j < i ==> -1023 <= #[trigger] self.0@[j] <= 1023,
            decreases 64 - i,
        {
            if self.0[i] < -1023 || self.0[i] > 1023 {
                return false;
            }
            i = i + 1;
        }
        true
    }

    /// The index just behind the last coefficient that is not zero.
    fn significant(&self) -> (end: usize)
        ensures
            end == significant_len(self.0@),
            end <= 64,
    {
        let mut end: usize = 64;
        proof {
            assert(self.0@.take(64) =~= self.0@);
        }
        while end > 0 && self.0[end - 1] == 0
            invariant
                0 <= end <= 64,
                significant_len(self.0@) == significant_len(self.0@.take(end as int)),
            decreases end,
        {
            proof {
                lemma_significant_len_of_prefix(self.0@, end as int);
            }
            end = end - 1;
        }
        proof {
            let head = self.0@.take(end as int);
            if end > 0 {
                assert(head.last() == self.0@[end - 1]);
            }
        }
        end
    }

    /// Appends the code of the block to `writer`. The coefficients are taken
    /// in the order in which they stand, which is to be the zig-zag order.
    /// A block with a coefficient outside ±1023 is refused, and nothing is
    /// written.
    pub fn encode(&self, writer: &mut BitWriter) -> (r: Result<(), CodecError>)
        requires
            old(writer).wf(),
        ensures
            final(writer).wf(),
            r is Ok <==> coefficients_in_range(self.0@),
            r is Ok ==> final(writer)@ == old(writer)@ + block_bits(self.0@),
            r is Err ==> r == Err::<(), CodecError>(CodecError::CoefficientRange)
                && final(writer)@ == old(writer)@,
    {
        if !self.in_range() {
            return Err(CodecError::CoefficientRange);
        }
        let ghost c = self.0@;
        let ghost before = writer@;
        let end = self.significant();
        let dc = self.0[0];
        assert(-1023 <= c[0] <= 1023);
        proof {
            lemma_width_by_range(dc as int);
        }
        let dc_width = Block::int_width(dc) as u8;
        assert(symbol_is_coded(dc_width));
        write_symbol(writer, dc_width);
        match writer.write_varint(dc) {
            Ok(()) => {},
            Err(e) => {
                return Err(e);
            },
        }
        let ghost total = writer@ + ac_bits(c, 1, end as int, 0);
        let mut zeroes: usize = 0;
        let mut i: usize = 1;
        while i < end
            invariant
                writer.wf(),
                c == self.0@,
                coefficients_in_range(c),
                1 <= i,
                end <= 64,
                0 <= zeroes <= 15,
                total == writer@ + ac_bits(c, i as int, end as int, zeroes as int),
            decreases end - i,
        {
            let item = self.0[i];
            let ghost sofar = writer@;
            let ghost rest = ac_bits(c, i + 1, end as int, 0);
            if item == 0 {
                if zeroes == 15 {
                    write_symbol(writer, ZERO_RUN);
                    zeroes = 0;
                    proof {
                        assert(sofar + (huffman_code(ZERO_RUN) + rest) =~= writer@ + rest);
                    }
                } else {
                    zeroes = zeroes + 1;
                }
            } else {
                assert(-1023 <= c[i as int] <= 1023);
                proof {
                    lemma_width_by_range(item as int);
                }
                let head = (zeroes * 16 + Block::int_width(item)) as u8;
                assert(head == run_symbol(zeroes as int, item as int));
                assert(symbol_is_coded(head));
                write_symbol(writer, head);
                match writer.write_varint(item) {
                    Ok(()) => {},
                    Err(e) => {
                        return Err(e);
                    },
                }
                zeroes = 0;
                proof {
                    assert(sofar + (huffman_code(head) + varint_bits(item as int) + rest)
                        =~= writer@ + rest);
                }
            }
            i = i + 1;
        }
        proof {
            assert(ac_bits(c, i as int, end as int, zeroes as int) =~= Seq::<bool>::empty());
            assert(total =~= writer@);
        }
        if end < 64 {
            write_symbol(writer, END_OF_BLOCK);
        }
        proof {
            reveal(block_bits);
            assert(writer@ =~= before + block_bits(c));
        }
        Ok(())
    }
}

impl Block<i16> {
    /// The number of bits that `encode` would write, without writing them.
    /// A block with a coefficient outside ±1023 has no code.
    pub fn get_encoded_size(&self) -> (r: Result<usize, CodecError>)
        ensures
            r is Ok <==> coefficients_in_range(self.0@),
            r is Ok ==> r->Ok_0 == block_bits(self.0@).len(),
            r is Err ==> r == Err::<usize, CodecError>(CodecError::CoefficientRange),
    {
        if !self.in_range() {
            return Err(CodecError::CoefficientRange);
        }
        let ghost c = self.0@;
        let end = self.significant();
        let dc = self.0[0];
        assert(-1023 <= c[0] <= 1023);
        proof {
            lemma_width_by_range(dc as int);
            lemma_varint_round_trip(dc as int);
        }
        let dc_width = Block::int_width(dc);
        let mut size: usize = symbol_len(dc_width as u8) + dc_width;
        let ghost total = size + ac_bits(c, 1, end as int, 0).len();
        let mut zeroes: usize = 0;
        let mut i: usize = 1;
        while i < end
            invariant
                c == self.0@,
                coefficients_in_range(c),
                1 <= i,
                end <= 64,
                0 <= zeroes <= 15,
                i <= 64,
                size <= 27 * i,
                total == size + ac_bits(c, i as int, end as int, zeroes as int).len(),
            decreases end - i,
        {
            let item = self.0[i];
            if item == 0 {
                if zeroes == 15 {
                    size = size + symbol_len(ZERO_RUN);
                    zeroes = 0;
                } else {
                    zeroes = zeroes + 1;
                }
            } else {
                assert(-1023 <= c[i as int] <= 1023);
                proof {
                    lemma_width_by_range(item as int);
                    lemma_varint_round_trip(item as int);
                }
                let width = Block::int_width(item);
                let head = (zeroes * 16 + width) as u8;
                assert(head == run_symbol(zeroes as int, item as int));
                size = size + symbol_len(head) + width;
                zeroes = 0;
            }
            i = i + 1;
        }
        if end < 64 {
            size = size + symbol_len(END_OF_BLOCK);
        }
        proof {
            reveal(block_bits);
        }
        Ok(size)
    }

    /// Reads one block from `reader`: the inverse of `encode`. On success
    /// the block holds the coefficients read, zero where none was coded. On
    /// failure the block is left as it was.
    pub fn decode(&mut self, reader: &mut BitReader) -> (r: Result<(), CodecError>)
        requires
            old(reader).wf(),
        ensures
            final(reader).wf(),
            match decode_block(old(reader)@) {
                Ok((c, rest)) => {
                    &&& r is Ok
                    &&& final(self).0@ == c
                    &&& final(reader)@ == rest
                },
                Err(e) => {
                    &&& r == Err::<(), CodecError>(e)
                    &&& final(self).0@ == old(self).0@
                },
            },
    {
        let ghost bits = reader@;
        proof {
            reveal(decode_block);
        }
        let mut temp: [i16; 64] = [0i16;64];
        let dc_width = match read_symbol(reader) {
            Ok(symbol) => symbol,
            Err(e) => {
                return Err(e);
            },
        };
        let dc = match reader.read_varint(dc_width) {
            Ok(value) => value,
            Err(e) => {
                return Err(e);
            },
        };
        temp[0] = dc;
        proof {
            reveal(decode_ac);
            assert(temp@ =~= Seq::new(64, |i: int| 0i16).update(0, dc));
        }
        let mut i: usize = 1;
        while i < 64
            invariant
                reader.wf(),
                1 <= i <= 80,
                self.0@ == old(self).0@,
                bits == old(reader)@,
                decode_ac(reader@, temp@, i as int) == decode_block(bits),
            decreases 80 - i,
        {
            proof {
                reveal(decode_ac);
            }
            let head = match read_symbol(reader) {
                Ok(symbol) => symbol,
                Err(e) => {
                    return Err(e);
                },
            };
            if head == ZERO_RUN {
                i = i + 16;
            } else if head == END_OF_BLOCK {
                self.0 = temp;
                return Ok(());
            } else {
                let width = head % 16;
                let run = head / 16;
                let value = match reader.read_varint(width) {
                    Ok(value) => value,
                    Err(e) => {
                        return Err(e);
                    },
                };
                let place = i + run as usize;
                if place >= 64 {
                    return Err(CodecError::CoefficientOverrun);
                }
                temp[place] = value;
                i = place + 1;
            }
        }
        proof {
            reveal(decode_ac);
        }
        self.0 = temp;
        Ok(())
    }
}

/// Behind the significant length every coefficient is zero, and the one
/// just before it is not.
pub proof fn lemma_significant_len(c: Seq<i16>)
    ensures
        0 <= significant_len(c) <= c.len(),
        significant_len(c) > 0 ==> c[significant_len(c) - 1] != 0,
        forall|j: int| significant_len(c) <= j < c.len() ==> c[j] == 0,
    decreases c.len(),
{
    if c.len() > 0 && c.last() == 0 {
        let head = c.drop_last();
        lemma_significant_len(head);
        assert forall|j: int| significant_len(c) <= j < c.len() implies c[j] == 0 by {
            if j < head.len() {
                assert(head[j] == c[j]);
            }
        }
        if significant_len(c) > 0 {
            assert(head[significant_len(c) - 1] == c[significant_len(c) - 1]);
        }
    }
}

/// The end-of-block symbol that closes a block whose last coefficient is
/// zero.
pub open spec fn end_bits(end: int) -> Seq<bool> {
    if end < 64 {
        huffman_code(END_OF_BLOCK)
    } else {
        Seq::empty()
    }
}

/// An end-of-block symbol ends the reading where it stands.
proof fn lemma_decode_end_of_block(rest: Seq<bool>, cur: Seq<i16>, pos: int)
    requires
        pos < 64,
    ensures
        decode_ac(huffman_code(END_OF_BLOCK) + rest, cur, pos) == Ok::<
            (Seq<i16>, Seq<bool>),
            CodecError,
        >((cur, rest)),
{
    let bits = huffman_code(END_OF_BLOCK) + rest;
    reveal(decode_ac);
    lemma_huffman_round_trip(END_OF_BLOCK, rest);
    assert(bits.skip(huffman_code(END_OF_BLOCK).len() as int) =~= rest);
}

/// A zero-run symbol moves the reading sixteen positions on.
proof fn lemma_decode_zero_run(follow: Seq<bool>, cur: Seq<i16>, pos: int)
    requires
        pos < 64,
    ensures
        decode_ac(huffman_code(ZERO_RUN) + follow, cur, pos) == decode_ac(follow, cur, pos + 16),
{
    let bits = huffman_code(ZERO_RUN) + follow;
    reveal(decode_ac);
    lemma_huffman_round_trip(ZERO_RUN, follow);
    assert(bits.skip(huffman_code(ZERO_RUN).len() as int) =~= follow);
}

/// The symbol and code of a coefficient put it `run` positions on, and move
/// the reading behind it.
proof fn lemma_decode_value(follow: Seq<bool>, cur: Seq<i16>, pos: int, run: int, value: i16)
    requires
        -1023 <= value <= 1023,
        value != 0,
        0 <= run <= 15,
        0 <= pos,
        pos + run < 64,
    ensures
        decode_ac(
            huffman_code(run_symbol(run, value as int)) + varint_bits(value as int) + follow,
            cur,
            pos,
        ) == decode_ac(follow, cur.update(pos + run, value), pos + run + 1),
{
    let symbol = run_symbol(run, value as int);
    let width = width_of(value as int);
    reveal(decode_ac);
    lemma_width_by_range(value as int);
    lemma_varint_round_trip(value as int);
    assert(1 <= width <= 10);
    assert(symbol as int == run * 16 + width);
    assert(symbol % 16 == width && symbol / 16 == run);
    assert(symbol_is_coded(symbol));
    let tail = varint_bits(value as int) + follow;
    let bits = huffman_code(symbol) + varint_bits(value as int) + follow;
    lemma_huffman_round_trip(symbol, tail);
    assert(bits =~= huffman_code(symbol) + tail);
    let after = bits.skip(huffman_code(symbol).len() as int);
    assert(after =~= tail);
    assert(after.take(width as int) =~= varint_bits(value as int));
    assert(after.skip(width as int) =~= follow);
    assert(symbol != ZERO_RUN && symbol != END_OF_BLOCK);
    assert(varint_value(after.take(width as int)) as i16 == value);
}

/// Whether `cur` is the block as read up to position `pos`, with the
/// coefficients from `pos` to `i` passed over as zeros: `cur` agrees with
/// `c` before `pos` and is zero from there on, and `c` is zero from `pos`
/// to `i`.
#[verifier::opaque]
spec fn read_so_far(c: Seq<i16>, cur: Seq<i16>, pos: int, i: int) -> bool {
    &&& c.len() == 64
    &&& cur.len() == 64
    &&& 0 <= pos <= i <= 64
    &&& forall|j: int| 0 <= j < pos ==> cur[j] == c[j]
    &&& forall|j: int| pos <= j < 64 ==> cur[j] == 0
    &&& forall|j: int| pos <= j < i ==> c[j] == 0
}

proof fn lemma_read_one_more_zero(c: Seq<i16>, cur: Seq<i16>, pos: int, i: int)
    requires
        read_so_far(c, cur, pos, i),
        i < 64,
        c[i] == 0,
    ensures
        read_so_far(c, cur, pos, i + 1),
        read_so_far(c, cur, i + 1, i + 1),
{
    reveal(read_so_far);
}

proof fn lemma_read_value(c: Seq<i16>, cur: Seq<i16>, pos: int, i: int)
    requires
        read_so_far(c, cur, pos, i),
        i < 64,
    ensures
        read_so_far(c, cur.update(i, c[i]), i + 1, i + 1),
{
    reveal(read_so_far);
}

proof fn lemma_read_all(c: Seq<i16>, cur: Seq<i16>, pos: int, i: int)
    requires
        read_so_far(c, cur, pos, i),
        forall|j: int| i <= j < 64 ==> c[j] == 0,
    ensures
        cur == c,
{
    reveal(read_so_far);
    assert(cur =~= c);
}

proof fn lemma_read_start(c: Seq<i16>)
    requires
        c.len() == 64,
    ensures
        read_so_far(c, Seq::new(64, |i: int| 0i16).update(0, c[0]), 1, 1),
{
    reveal(read_so_far);
}

/// At the end of the significant coefficients the reading completes the
/// block.
proof fn lemma_round_trip_at_end(c: Seq<i16>, i: int, cur: Seq<i16>, rest: Seq<bool>)
    requires
        coefficients_in_range(c),
        read_so_far(c, cur, i, i),
        1 <= i,
        i == significant_len(c) || (i == 1 && significant_len(c) == 0),
    ensures
        decode_ac(
            ac_bits(c, i, significant_len(c), 0) + end_bits(significant_len(c)) + rest,
            cur,
            i,
        ) == Ok::<(Seq<i16>, Seq<bool>), CodecError>((c, rest)),
{
    let end = significant_len(c);
    let bits = ac_bits(c, i, end, 0) + end_bits(end) + rest;
    lemma_significant_len(c);
    assert(read_so_far(c, cur, i, i) ==> i <= 64) by {
        reveal(read_so_far);
    }
    lemma_read_all(c, cur, i, i);
    if end < 64 {
        lemma_decode_end_of_block(rest, cur, i);
        assert(bits =~= huffman_code(END_OF_BLOCK) + rest);
    } else {
        assert(bits =~= rest);
        assert(decode_ac(rest, cur, i) == Ok::<(Seq<i16>, Seq<bool>), CodecError>((cur, rest)))
            by {
            reveal(decode_ac);
        }
    }
}

/// Reading back what `ac_bits` codes from index `i` on completes the block,
/// given that what was read before is in place.
proof fn lemma_decode_ac_round_trip(
    c: Seq<i16>,
    i: int,
    run: int,
    cur: Seq<i16>,
    rest: Seq<bool>,
)
    requires
        coefficients_in_range(c),
        read_so_far(c, cur, i - run, i),
        0 <= run <= 15,
        1 <= i - run,
        i <= significant_len(c) || (i == 1 && run == 0),
    ensures
        decode_ac(
            ac_bits(c, i, significant_len(c), run) + end_bits(significant_len(c)) + rest,
            cur,
            i - run,
        ) == Ok::<(Seq<i16>, Seq<bool>), CodecError>((c, rest)),
    decreases significant_len(c) - i,
{
    let end = significant_len(c);
    let pos = i - run;
    let bits = ac_bits(c, i, end, run) + end_bits(end) + rest;
    lemma_significant_len(c);
    if i >= end {
        assert(run == 0) by {
            if run > 0 && i == end {
                reveal(read_so_far);
                assert(c[end - 1] == 0);
            }
        }
        lemma_round_trip_at_end(c, i, cur, rest);
    } else if c[i] == 0 {
        lemma_read_one_more_zero(c, cur, pos, i);
        if run == 15 {
            let follow = ac_bits(c, i + 1, end, 0) + end_bits(end) + rest;
            lemma_decode_zero_run(follow, cur, pos);
            assert(bits =~= huffman_code(ZERO_RUN) + follow);
            lemma_decode_ac_round_trip(c, i + 1, 0, cur, rest);
        } else {
            lemma_decode_ac_round_trip(c, i + 1, run + 1, cur, rest);
        }
    } else {
        let follow = ac_bits(c, i + 1, end, 0) + end_bits(end) + rest;
        lemma_decode_value(follow, cur, pos, run, c[i]);
        assert(bits =~= huffman_code(run_symbol(run, c[i] as int)) + varint_bits(c[i] as int)
            + follow);
        lemma_read_value(c, cur, pos, i);
        lemma_decode_ac_round_trip(c, i + 1, 0, cur.update(i, c[i]), rest);
    }
}

/// Decoding what `encode` wrote gives the block back, and leaves what
/// followed it: for every block of coefficients within ±1023.
pub proof fn lemma_block_round_trip(c: Seq<i16>, rest: Seq<bool>)
    requires
        coefficients_in_range(c),
    ensures
        decode_block(block_bits(c) + rest) == Ok::<(Seq<i16>, Seq<bool>), CodecError>((c, rest)),
{
    let end = significant_len(c);
    let dc = c[0] as int;
    let width = width_of(dc);
    reveal(block_bits);
    reveal(decode_block);
    lemma_width_by_range(dc);
    lemma_varint_round_trip(dc);
    assert(0 <= width <= 10);
    let symbol = width as u8;
    assert(symbol_is_coded(symbol));
    let follow = ac_bits(c, 1, end, 0) + end_bits(end) + rest;
    let tail = varint_bits(dc) + follow;
    let bits = block_bits(c) + rest;
    lemma_huffman_round_trip(symbol, tail);
    assert(bits =~= huffman_code(symbol) + tail);
    let after = bits.skip(huffman_code(symbol).len() as int);
    assert(after =~= tail);
    assert(after.take(width as int) =~= varint_bits(dc));
    assert(after.skip(width as int) =~= follow);
    let first = Seq::new(64, |i: int| 0i16).update(0, c[0]);
    assert(varint_value(after.take(width as int)) as i16 == c[0]);
    lemma_read_start(c);
    lemma_decode_ac_round_trip(c, 1, 0, first, rest);
}

/// The code of the coefficients from `i` on takes at most twenty-seven bits
/// for each.
proof fn lemma_ac_bits_len(c: Seq<i16>, i: int, end: int, run: int)
    requires
        coefficients_in_range(c),
        1 <= i,
        end <= 64,
        0 <= run <= 15,
    ensures
        ac_bits(c, i, end, run).len() <= 27 * (if i < end {
            end - i
        } else {
            0
        }),
    decreases end - i,
{
    if i < end {
        if c[i] == 0 {
            if run == 15 {
                lemma_huffman_code_len(ZERO_RUN);
                lemma_ac_bits_len(c, i + 1, end, 0);
            } else {
                lemma_ac_bits_len(c, i + 1, end, run + 1);
            }
        } else {
            let value = c[i] as int;
            lemma_width_by_range(value);
            lemma_varint_round_trip(value);
            let symbol = run_symbol(run, value);
            assert(symbol as int == run * 16 + width_of(value));
            assert(symbol_is_coded(symbol));
            lemma_huffman_code_len(symbol);
            lemma_ac_bits_len(c, i + 1, end, 0);
        }
    }
}

/// The code of a block takes at most 1744 bits.
pub proof fn lemma_block_bits_len(c: Seq<i16>)
    requires
        coefficients_in_range(c),
    ensures
        block_bits(c).len() <= 1744,
{
    let end = significant_len(c);
    reveal(block_bits);
    lemma_significant_len(c);
    let dc = c[0] as int;
    lemma_width_by_range(dc);
    lemma_varint_round_trip(dc);
    assert(symbol_is_coded(width_of(dc) as u8));
    lemma_huffman_code_len(width_of(dc) as u8);
    lemma_huffman_code_len(END_OF_BLOCK);
    lemma_ac_bits_len(c, 1, end, 0);
}

} // verus!
