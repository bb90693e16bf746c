//! Bit-granular writing and reading over bytes, and the signed
//! variable-width integers built on it.
//!
//! A stream of bits is a `Seq<bool>`. Bytes carry eight bits each, the least
//! significant first.

use crate::error::CodecError;
use vstd::arithmetic::div_mod::lemma_div_denominator;
use vstd::arithmetic::power2::{lemma2_to64, lemma_pow2_strictly_increases, lemma_pow2_unfold, pow2};
use vstd::prelude::*;

verus! {

/// Bit `i` of a byte, bit 0 being the least significant.
pub open spec fn byte_bit(b: u8, i: int) -> bool {
    (b >> (i as u8)) & 1 == 1
}

/// The bits that a byte sequence carries, in stream order.
pub open spec fn bits_of_bytes(bytes: Seq<u8>) -> Seq<bool> {
    Seq::new(8 * bytes.len(), |k: int| byte_bit(bytes[k / 8], k % 8))
}

/// How many zero bits complete `len` bits to a whole number of bytes.
pub open spec fn padding_len(len: nat) -> nat {
    ((8 - len % 8) % 8) as nat
}

/// `bits`, followed by zero bits up to the next byte boundary.
pub open spec fn pad_to_byte(bits: Seq<bool>) -> Seq<bool> {
    bits + Seq::new(padding_len(bits.len()), |i: int| false)
}

/// Bit `i` of `bits` as a number, where bits past the end count as zero.
pub open spec fn bit_or_zero(bits: Seq<bool>, i: int) -> int {
    if 0 <= i < bits.len() && bits[i] {
        1
    } else {
        0
    }
}

/// The byte made of the eight bits from index `at` on, the first of them
/// the least significant.
pub open spec fn byte_of_bits(bits: Seq<bool>, at: int) -> u8 {
    (bit_or_zero(bits, at) + 2 * bit_or_zero(bits, at + 1) + 4 * bit_or_zero(bits, at + 2) + 8
        * bit_or_zero(bits, at + 3) + 16 * bit_or_zero(bits, at + 4) + 32 * bit_or_zero(
        bits,
        at + 5,
    ) + 64 * bit_or_zero(bits, at + 6) + 128 * bit_or_zero(bits, at + 7)) as u8
}

/// The bytes that carry `bits`, the last one completed with zero bits.
pub open spec fn packed(bits: Seq<bool>) -> Seq<u8> {
    Seq::new(((bits.len() + 7) / 8) as nat, |k: int| byte_of_bits(bits, 8 * k))
}

/// The number of binary digits of `n`: the least `w` with `n < 2^w`.
pub open spec fn bit_length(n: nat) -> nat
    decreases n,
{
    if n == 0 {
        0
    } else {
        1 + bit_length(n / 2)
    }
}

/// The width of a signed integer: the least `w` with `|v| < 2^w`, and eleven
/// for everything that needs more.
pub open spec fn width_of(v: int) -> nat {
    let w = bit_length(vstd::math::abs(v) as nat);
    if w > 11 {
        11
    } else {
        w
    }
}

/// The `n` low binary digits of `x`, the most significant first.
pub open spec fn msb_bits(x: nat, n: nat) -> Seq<bool>
    decreases n,
{
    if n == 0 {
        Seq::empty()
    } else {
        msb_bits(x / 2, (n - 1) as nat).push(x % 2 == 1)
    }
}

/// The number whose binary digits are `bits`, the most significant first.
pub open spec fn bits_value(bits: Seq<bool>) -> nat
    decreases bits.len(),
{
    if bits.len() == 0 {
        0
    } else {
        2 * bits_value(bits.drop_last()) + (if bits.last() {
            1nat
        } else {
            0nat
        })
    }
}

/// The code of a signed integer of width `w`: nothing for zero; else a sign
/// bit (1 for negative) and `w - 1` magnitude bits, the most significant
/// first. The magnitude field of a positive `v` is `v - 2^(w-1)`; that of a
/// negative `v` is `-v - 2^(w-1)` with its `w - 1` bits inverted.
pub open spec fn varint_bits(v: int) -> Seq<bool> {
    let w = width_of(v);
    if w == 0 {
        Seq::empty()
    } else {
        let half = pow2((w - 1) as nat) as int;
        let field = if v > 0 {
            v - half
        } else {
            (half - 1) - (-v - half)
        };
        seq![v < 0] + msb_bits(field as nat, (w - 1) as nat)
    }
}

/// The signed integer that a code of `bits.len()` bits stands for.
pub open spec fn varint_value(bits: Seq<bool>) -> int {
    if bits.len() == 0 {
        0
    } else {
        let half = pow2((bits.len() - 1) as nat) as int;
        let field = bits_value(bits.skip(1)) as int;
        if bits[0] {
            -((half - 1) - field) - half
        } else {
            field + half
        }
    }
}

/// The bits that a code vector stands for: its entries up to the first
/// negative one, each positive entry a 1 and each zero a 0.
pub open spec fn code_bits(values: Seq<i8>) -> Seq<bool>
    decreases values.len(),
{
    if values.len() == 0 || values[0] < 0 {
        Seq::empty()
    } else {
        seq![values[0] > 0] + code_bits(values.skip(1))
    }
}

/// A decoding table is a binary trie laid out in a sequence. A positive
/// entry is the distance to the child node; any other entry is a leaf that
/// holds the negated symbol.
pub open spec fn huffman_table_wf(table: Seq<[i16; 2]>) -> bool {
    &&& table.len() >= 1
    &&& forall|node: int, bit: int|
        0 <= node < table.len() && 0 <= bit < 2 ==> {
            let child = #[trigger] table[node][bit];
            &&& child > 0 ==> node + child < table.len()
            &&& child <= 0 ==> child >= -255
        }
}

/// Walks the trie from `node`, reading `bits` from index `at` on. Gives the
/// symbol of the leaf and the index just behind the last bit read, or `None`
/// if the bits run out first.
pub open spec fn huffman_walk(table: Seq<[i16; 2]>, node: int, bits: Seq<bool>, at: int) -> Option<
    (u8, int),
>
    decreases bits.len() - at,
{
    if at < 0 || at >= bits.len() {
        None
    } else {
        let child = table[node][if bits[at] {
            1int
        } else {
            0int
        }];
        if child <= 0 {
            Some(((-child) as u8, at + 1))
        } else {
            huffman_walk(table, node + child, bits, at + 1)
        }
    }
}

/// The first symbol that `bits` spell in `table`, with the number of bits it
/// takes.
pub open spec fn huffman_decode(table: Seq<[i16; 2]>, bits: Seq<bool>) -> Option<(u8, int)> {
    huffman_walk(table, 0, bits, 0)
}

proof fn lemma_or_bit(d: u8, p: u8, i: u8)
    by (bit_vector)
    requires
        p < 8,
        i < 8,
        d >> p == 0,
    ensures
        ((d | (1u8 << p)) >> i) & 1 == (if i == p {
            1u8
        } else {
            (d >> i) & 1
        }),
        p < 7 ==> (d | (1u8 << p)) >> ((p + 1) as u8) == 0,
{
}

proof fn lemma_high_bits_clear(d: u8, p: u8, i: u8)
    by (bit_vector)
    requires
        p <= i < 8,
        d >> p == 0,
    ensures
        (d >> i) & 1 == 0,
        p < 7 ==> d >> ((p + 1) as u8) == 0,
{
}

proof fn lemma_zero_byte(i: u8)
    by (bit_vector)
    requires
        i < 8,
    ensures
        0u8 >> i == 0,
        (0u8 >> i) & 1 == 0,
{
}

proof fn lemma_bit_is_zero_or_one(d: u8, i: u8)
    by (bit_vector)
    requires
        i < 8,
    ensures
        (d >> i) & 1 == 0 || (d >> i) & 1 == 1,
{
}

proof fn lemma_byte_of_its_bits(
    b0: bool,
    b1: bool,
    b2: bool,
    b3: bool,
    b4: bool,
    b5: bool,
    b6: bool,
    b7: bool,
    v: u8,
)
    by (bit_vector)
    requires
        v == (if b0 { 1u8 } else { 0u8 }) + (if b1 { 2u8 } else { 0u8 }) + (if b2 { 4u8 } else { 0u8 })
            + (if b3 { 8u8 } else { 0u8 }) + (if b4 { 16u8 } else { 0u8 }) + (if b5 { 32u8 } else { 0u8 })
            + (if b6 { 64u8 } else { 0u8 }) + (if b7 { 128u8 } else { 0u8 }),
    ensures
        ((v >> 0u8) & 1 == 1) == b0,
        ((v >> 1u8) & 1 == 1) == b1,
        ((v >> 2u8) & 1 == 1) == b2,
        ((v >> 3u8) & 1 == 1) == b3,
        ((v >> 4u8) & 1 == 1) == b4,
        ((v >> 5u8) & 1 == 1) == b5,
        ((v >> 6u8) & 1 == 1) == b6,
        ((v >> 7u8) & 1 == 1) == b7,
{
}

proof fn lemma_bytes_with_equal_bits(a: u8, b: u8)
    by (bit_vector)
    requires
        ((a >> 0u8) & 1 == 1) == ((b >> 0u8) & 1 == 1),
        ((a >> 1u8) & 1 == 1) == ((b >> 1u8) & 1 == 1),
        ((a >> 2u8) & 1 == 1) == ((b >> 2u8) & 1 == 1),
        ((a >> 3u8) & 1 == 1) == ((b >> 3u8) & 1 == 1),
        ((a >> 4u8) & 1 == 1) == ((b >> 4u8) & 1 == 1),
        ((a >> 5u8) & 1 == 1) == ((b >> 5u8) & 1 == 1),
        ((a >> 6u8) & 1 == 1) == ((b >> 6u8) & 1 == 1),
        ((a >> 7u8) & 1 == 1) == ((b >> 7u8) & 1 == 1),
    ensures
        a == b,
{
}

/// A byte made of eight bits carries those bits.
pub proof fn lemma_byte_of_bits(bits: Seq<bool>, at: int, i: int)
    requires
        0 <= i < 8,
    ensures
        byte_bit(byte_of_bits(bits, at), i) == (bit_or_zero(bits, at + i) == 1),
{
    let v = byte_of_bits(bits, at);
    lemma_byte_of_its_bits(
        bit_or_zero(bits, at) == 1,
        bit_or_zero(bits, at + 1) == 1,
        bit_or_zero(bits, at + 2) == 1,
        bit_or_zero(bits, at + 3) == 1,
        bit_or_zero(bits, at + 4) == 1,
        bit_or_zero(bits, at + 5) == 1,
        bit_or_zero(bits, at + 6) == 1,
        bit_or_zero(bits, at + 7) == 1,
        v,
    );
}

/// The packed bytes carry the bits, completed with zeros.
pub proof fn lemma_bits_of_packed(bits: Seq<bool>)
    ensures
        bits_of_bytes(packed(bits)) == pad_to_byte(bits),
{
    let lhs = bits_of_bytes(packed(bits));
    let rhs = pad_to_byte(bits);
    assert(lhs.len() == rhs.len());
    assert forall|k: int| 0 <= k < lhs.len() implies lhs[k] == rhs[k] by {
        lemma_byte_of_bits(bits, 8 * (k / 8), k % 8);
    }
    assert(lhs =~= rhs);
}

/// Byte sequences that carry the same bits are the same.
pub proof fn lemma_bits_of_bytes_injective(a: Seq<u8>, b: Seq<u8>)
    requires
        bits_of_bytes(a) == bits_of_bytes(b),
    ensures
        a == b,
{
    assert(a.len() == b.len()) by {
        assert(bits_of_bytes(a).len() == 8 * a.len());
        assert(bits_of_bytes(b).len() == 8 * b.len());
    }
    assert forall|k: int| 0 <= k < a.len() implies a[k] == b[k] by {
        assert forall|i: int| 0 <= i < 8 implies byte_bit(a[k], i) == byte_bit(b[k], i) by {
            let at = 8 * k + i;
            assert(at / 8 == k && at % 8 == i);
            assert(bits_of_bytes(a)[at] == byte_bit(a[k], i));
            assert(bits_of_bytes(b)[at] == byte_bit(b[k], i));
        }
        assert(byte_bit(a[k], 0) == byte_bit(b[k], 0));
        assert(byte_bit(a[k], 1) == byte_bit(b[k], 1));
        assert(byte_bit(a[k], 2) == byte_bit(b[k], 2));
        assert(byte_bit(a[k], 3) == byte_bit(b[k], 3));
        assert(byte_bit(a[k], 4) == byte_bit(b[k], 4));
        assert(byte_bit(a[k], 5) == byte_bit(b[k], 5));
        assert(byte_bit(a[k], 6) == byte_bit(b[k], 6));
        assert(byte_bit(a[k], 7) == byte_bit(b[k], 7));
        lemma_bytes_with_equal_bits(a[k], b[k]);
    }
    assert(a =~= b);
}

/// Appending one byte appends its eight bits.
pub proof fn lemma_bits_of_bytes_push(bytes: Seq<u8>, b: u8)
    ensures
        bits_of_bytes(bytes.push(b)) =~= bits_of_bytes(bytes) + Seq::new(8, |i: int| byte_bit(b, i)),
{
    let lhs = bits_of_bytes(bytes.push(b));
    let rhs = bits_of_bytes(bytes) + Seq::new(8, |i: int| byte_bit(b, i));
    assert forall|k: int| 0 <= k < lhs.len() implies lhs[k] == rhs[k] by {
        if k < 8 * bytes.len() {
            assert(bytes.push(b)[k / 8] == bytes[k / 8]);
        } else {
            assert(k / 8 == bytes.len());
            assert(k % 8 == k - 8 * bytes.len());
        }
    }
}

/// A positive `n` lies between the two powers of two that its digit count
/// names.
pub proof fn lemma_bit_length_bounds(n: nat)
    requires
        n > 0,
    ensures
        bit_length(n) >= 1,
        pow2((bit_length(n) - 1) as nat) <= n < pow2(bit_length(n)),
    decreases n,
{
    if n == 1 {
        assert(bit_length(0) == 0);
        assert(bit_length(1) == 1 + bit_length(0));
        lemma2_to64();
    } else {
        lemma_bit_length_bounds(n / 2);
        let k = bit_length(n / 2);
        lemma_pow2_unfold(k);
        lemma_pow2_unfold(k + 1);
    }
}

/// The digit count is the only `w` with `2^(w-1) <= n < 2^w`.
pub proof fn lemma_bit_length_unique(n: nat, w: nat)
    requires
        w >= 1,
        pow2((w - 1) as nat) <= n < pow2(w),
    ensures
        bit_length(n) == w,
{
    lemma2_to64();
    assert(n > 0) by {
        vstd::arithmetic::power2::lemma_pow2_pos((w - 1) as nat);
    }
    lemma_bit_length_bounds(n);
    let b = bit_length(n);
    if b < w {
        if b < w - 1 {
            lemma_pow2_strictly_increases(b, (w - 1) as nat);
        }
    } else if b > w {
        if w < b - 1 {
            lemma_pow2_strictly_increases(w, (b - 1) as nat);
        }
    }
}

/// The width of a value, by the powers of two that its magnitude lies
/// between.
pub proof fn lemma_width_by_range(v: int)
    ensures
        width_of(v) <= 11,
        ({
            let n = vstd::math::abs(v);
            let w = width_of(v);
            &&& n >= 1024 <==> w == 11
            &&& 512 <= n < 1024 <==> w == 10
            &&& 256 <= n < 512 <==> w == 9
            &&& 128 <= n < 256 <==> w == 8
            &&& 64 <= n < 128 <==> w == 7
            &&& 32 <= n < 64 <==> w == 6
            &&& 16 <= n < 32 <==> w == 5
            &&& 8 <= n < 16 <==> w == 4
            &&& 4 <= n < 8 <==> w == 3
            &&& 2 <= n < 4 <==> w == 2
            &&& n == 1 <==> w == 1
            &&& n == 0 <==> w == 0
        }),
{
    lemma2_to64();
    let n = vstd::math::abs(v) as nat;
    if n >= 2048 {
        lemma_bit_length_bounds(n);
        let b = bit_length(n);
        if b <= 11 {
            if b < 11 {
                lemma_pow2_strictly_increases(b, 11);
            }
        }
    } else if n >= 1024 {
        lemma_bit_length_unique(n, 11);
    } else if n >= 512 {
        lemma_bit_length_unique(n, 10);
    } else if n >= 256 {
        lemma_bit_length_unique(n, 9);
    } else if n >= 128 {
        lemma_bit_length_unique(n, 8);
    } else if n >= 64 {
        lemma_bit_length_unique(n, 7);
    } else if n >= 32 {
        lemma_bit_length_unique(n, 6);
    } else if n >= 16 {
        lemma_bit_length_unique(n, 5);
    } else if n >= 8 {
        lemma_bit_length_unique(n, 4);
    } else if n >= 4 {
        lemma_bit_length_unique(n, 3);
    } else if n >= 2 {
        lemma_bit_length_unique(n, 2);
    } else if n >= 1 {
        lemma_bit_length_unique(n, 1);
    } else {
        assert(bit_length(0) == 0);
    }
}

/// The width of a value within ±2047 is the least `w` with `|v| < 2^w`.
pub proof fn lemma_width_of_is_least(v: int)
    requires
        -2047 <= v <= 2047,
    ensures
        width_of(v) <= 11,
        width_of(v) == bit_length(vstd::math::abs(v)),
        vstd::math::abs(v) < pow2(width_of(v)),
        forall|w: nat| vstd::math::abs(v) < pow2(w) ==> width_of(v) <= w,
{
    lemma2_to64();
    let n = vstd::math::abs(v) as nat;
    if n == 0 {
        assert(bit_length(0) == 0);
    } else {
        lemma_bit_length_bounds(n);
        let b = bit_length(n);
        if b > 11 {
            if b > 12 {
                lemma_pow2_strictly_increases(11, (b - 1) as nat);
            }
        }
        assert forall|w: nat| n < pow2(w) implies b <= w by {
            if w < b {
                if w < b - 1 {
                    lemma_pow2_strictly_increases(w, (b - 1) as nat);
                }
            }
        }
    }
}

/// `n` digits are `n` bits.
pub proof fn lemma_msb_bits_len(x: nat, n: nat)
    ensures
        msb_bits(x, n).len() == n,
    decreases n,
{
    if n > 0 {
        lemma_msb_bits_len(x / 2, (n - 1) as nat);
    }
}

/// Reading back the `n` digits of a number below `2^n` gives the number.
pub proof fn lemma_bits_value_of_msb_bits(x: nat, n: nat)
    requires
        x < pow2(n),
    ensures
        bits_value(msb_bits(x, n)) == x,
    decreases n,
{
    lemma_msb_bits_len(x, n);
    if n == 0 {
        lemma2_to64();
    } else {
        lemma_pow2_unfold(n);
        let rest = msb_bits(x / 2, (n - 1) as nat);
        lemma_bits_value_of_msb_bits(x / 2, (n - 1) as nat);
        assert(msb_bits(x, n).drop_last() =~= rest);
    }
}

/// A number read from `n` digits is below `2^n`.
pub proof fn lemma_bits_value_bound(bits: Seq<bool>)
    ensures
        bits_value(bits) < pow2(bits.len()),
    decreases bits.len(),
{
    if bits.len() == 0 {
        lemma2_to64();
    } else {
        lemma_bits_value_bound(bits.drop_last());
        lemma_pow2_unfold(bits.len());
    }
}

/// Decoding the code of any integer within ±2047 gives the integer back, and
/// the code is as long as the integer is wide.
pub proof fn lemma_varint_round_trip(v: int)
    requires
        -2047 <= v <= 2047,
    ensures
        varint_bits(v).len() == width_of(v),
        varint_value(varint_bits(v)) == v,
{
    let w = width_of(v);
    let n = vstd::math::abs(v) as nat;
    lemma2_to64();
    if v != 0 {
        lemma_bit_length_bounds(n);
        lemma_width_of_is_least(v);
        assert(w == bit_length(n));
        assert(w >= 1);
        let half = pow2((w - 1) as nat) as int;
        lemma_pow2_unfold(w);
        let field = if v > 0 {
            v - half
        } else {
            (half - 1) - (-v - half)
        };
        assert(0 <= field < half);
        let tail = msb_bits(field as nat, (w - 1) as nat);
        lemma_msb_bits_len(field as nat, (w - 1) as nat);
        lemma_bits_value_of_msb_bits(field as nat, (w - 1) as nat);
        let bits = varint_bits(v);
        assert(bits == seq![v < 0] + tail);
        assert(bits.skip(1) =~= tail);
        assert(bits[0] == (v < 0));
    } else {
        assert(bit_length(0) == 0);
    }
}

/// Accumulates bits into bytes and appends each full byte to a byte vector.
pub struct BitWriter {
    sink: Vec<u8>,
    data: u8,
    bit_pos: u8,
}

impl View for BitWriter {
    type V = Seq<bool>;

    /// Every bit that the sink holds or that waits in the register.
    closed spec fn view(&self) -> Seq<bool> {
        bits_of_bytes(self.sink@) + Seq::new(self.bit_pos as nat, |i: int| byte_bit(self.data, i))
    }
}

impl BitWriter {
    /// The register holds fewer than eight bits, and nothing above them.
    pub closed spec fn wf(&self) -> bool {
        self.bit_pos < 8 && self.data >> self.bit_pos == 0
    }

    /// A writer that appends to `sink`.
    pub fn new(sink: Vec<u8>) -> (w: BitWriter)
        ensures
            w.wf(),
            w@ == bits_of_bytes(sink@),
    {
        proof {
            lemma_zero_byte(0);
        }
        let w = BitWriter { sink, data: 0, bit_pos: 0 };
        assert(w@ =~= bits_of_bytes(sink@));
        w
    }

    /// Appends one bit: 1 if `data` is positive, else 0.
    pub fn write_bit(&mut self, data: u8)
        requires
            old(self).wf(),
        ensures
            final(self).wf(),
            final(self)@ == old(self)@.push(data > 0),
    {
        let ghost before = self@;
        let ghost old_data = self.data;
        let ghost old_sink = self.sink@;
        let pos = self.bit_pos;
        let byte = if data > 0 {
            self.data | (1u8 << pos)
        } else {
            self.data
        };
        proof {
            assert forall|i: int| 0 <= i < 8 implies byte_bit(byte, i) == (if i < pos {
                byte_bit(old_data, i)
            } else if i == pos {
                data > 0
            } else {
                false
            }) by {
                if data > 0 {
                    lemma_or_bit(old_data, pos, i as u8);
                    if i > pos {
                        lemma_high_bits_clear(old_data, pos, i as u8);
                    }
                } else {
                    if i >= pos {
                        lemma_high_bits_clear(old_data, pos, i as u8);
                    }
                }
            }
            if pos < 7 {
                if data > 0 {
                    lemma_or_bit(old_data, pos, 0);
                } else {
                    lemma_high_bits_clear(old_data, pos, pos);
                }
            }
        }
        if pos == 7 {
            self.sink.push(byte);
            proof {
                lemma_zero_byte(7);
                lemma_zero_byte(0);
            }
            self.data = 0;
            self.bit_pos = 0;
            proof {
                lemma_bits_of_bytes_push(old_sink, byte);
                assert(self@ =~= before.push(data > 0));
            }
        } else {
            self.bit_pos = pos + 1;
            self.data = byte;
            proof {
                assert(self@ =~= before.push(data > 0));
            }
        }
    }

    /// Completes the byte in progress with zero bits and hands it to the
    /// sink. Does nothing at a byte boundary.
    pub fn flush(&mut self)
        requires
            old(self).wf(),
        ensures
            final(self).wf(),
            final(self)@ == pad_to_byte(old(self)@),
            final(self)@.len() % 8 == 0,
    {
        let ghost before = self@;
        let ghost old_sink = self.sink@;
        let ghost byte = self.data;
        let ghost pos = self.bit_pos;
        if self.bit_pos > 0 {
            self.sink.push(self.data);
            proof {
                lemma_zero_byte(pos);
                lemma_zero_byte(0);
            }
            self.data = 0;
            self.bit_pos = 0;
            proof {
                lemma_bits_of_bytes_push(old_sink, byte);
                assert forall|i: int| pos <= i < 8 implies !byte_bit(byte, i) by {
                    lemma_high_bits_clear(byte, pos, i as u8);
                }
                assert(before.len() == 8 * old_sink.len() + pos);
                assert(padding_len(before.len()) == 8 - pos);
                assert(self@ =~= pad_to_byte(before));
            }
        } else {
            proof {
                assert(before.len() == 8 * old_sink.len());
                assert(padding_len(before.len()) == 0);
                assert(self@ =~= pad_to_byte(before));
            }
        }
    }

    /// Flushes and returns the sink.
    pub fn finish(self) -> (bytes: Vec<u8>)
        requires
            self.wf(),
        ensures
            bits_of_bytes(bytes@) == pad_to_byte(self@),
            bytes@ == packed(self@),
    {
        let mut w = self;
        w.flush();
        proof {
            assert(w@.len() == 8 * w.sink@.len() + w.bit_pos);
            assert(w.bit_pos == 0);
            assert(w@ =~= bits_of_bytes(w.sink@));
            lemma_bits_of_packed(self@);
            lemma_bits_of_bytes_injective(w.sink@, packed(self@));
        }
        w.sink
    }
}

/// `WIDTH_OFFSETS[w]` is the least magnitude of width `w`: `2^(w-1)`.
pub const WIDTH_OFFSETS: [i16; 12] = [0, 1, 2, 4, 8, 16, 32, 64, 128, 256, 512, 1024];

proof fn lemma_width_offsets(w: int)
    requires
        1 <= w <= 11,
    ensures
        WIDTH_OFFSETS[w] == pow2((w - 1) as nat),
{
    lemma2_to64();
}

impl BitWriter {
    /// The sign and magnitude field of `value` as one two's-complement
    /// number: `value - offset` for a non-negative value, and the bitwise
    /// complement of `-value - offset` for a negative one.
    fn adjust_int(value: i16, offset: i16) -> (r: i16)
        requires
            -2047 <= value <= 2047,
            0 <= offset <= 1024,
        ensures
            value >= 0 ==> r == value - offset,
            value < 0 ==> r == -(-value - offset) - 1,
    {
        if value >= 0 {
            value - offset
        } else {
            -(-value - offset) - 1
        }
    }

    /// The width of `value`, and its sign and magnitude field as a
    /// two's-complement number of that many bits.
    fn varint_convert(value: i16) -> (r: (usize, i16))
        requires
            -2047 <= value <= 2047,
        ensures
            r.0 == width_of(value as int),
            r.0 <= 11,
            r.0 == 0 ==> r.1 == 0,
            r.0 > 0 ==> -pow2((r.0 - 1) as nat) <= r.1 < pow2((r.0 - 1) as nat),
            value == 0 <==> r.0 == 0,
            value < 0 <==> r.1 < 0,
            r.0 > 0 && value > 0 ==> r.1 == value - pow2((r.0 - 1) as nat),
            r.0 > 0 && value < 0 ==> r.1 == -(-value - pow2((r.0 - 1) as nat)) - 1,
    {
        proof {
            lemma2_to64();
            lemma_width_by_range(value as int);
        }
        if value <= -1024 || value >= 1024 {
            return (11, BitWriter::adjust_int(value, 1024));
        }
        if value <= -512 || value >= 512 {
            return (10, BitWriter::adjust_int(value, 512));
        }
        if value <= -256 || value >= 256 {
            return (9, BitWriter::adjust_int(value, 256));
        }
        if value <= -128 || value >= 128 {
            return (8, BitWriter::adjust_int(value, 128));
        }
        if value <= -64 || value >= 64 {
            return (7, BitWriter::adjust_int(value, 64));
        }
        if value <= -32 || value >= 32 {
            return (6, BitWriter::adjust_int(value, 32));
        }
        if value <= -16 || value >= 16 {
            return (5, BitWriter::adjust_int(value, 16));
        }
        if value <= -8 || value >= 8 {
            return (4, BitWriter::adjust_int(value, 8));
        }
        if value <= -4 || value >= 4 {
            return (3, BitWriter::adjust_int(value, 4));
        }
        if value <= -2 || value >= 2 {
            return (2, BitWriter::adjust_int(value, 2));
        }
        if value <= -1 || value >= 1 {
            return (1, BitWriter::adjust_int(value, 1));
        }
        (0, 0)
    }

    /// Appends the variable-width code of `value`. Values outside ±2047
    /// have no code: they are refused and nothing is written.
    pub fn write_varint(&mut self, value: i16) -> (r: Result<(), CodecError>)
        requires
            old(self).wf(),
        ensures
            final(self).wf(),
            r is Ok <==> -2047 <= value <= 2047,
            r is Ok ==> final(self)@ == old(self)@ + varint_bits(value as int),
            r is Err ==> r == Err::<(), CodecError>(CodecError::ValueRange)
                && final(self)@ == old(self)@,
    {
        if value < -2047 || value > 2047 {
            return Err(CodecError::ValueRange);
        }
        let ghost before = self@;
        let (width, data) = BitWriter::varint_convert(value);
        if width == 0 {
            assert(self@ =~= before + varint_bits(value as int));
            return Ok(());
        }
        proof {
            lemma_width_offsets(width as int);
        }
        let half: i16 = WIDTH_OFFSETS[width];
        let negative = data < 0;
        let field: i16 = if negative {
            data + half
        } else {
            data
        };
        self.write_bit(if negative {
            1
        } else {
            0
        });
        let mut mask: i16 = half;
        let mut done: usize = 1;
        proof {
            lemma2_to64();
            vstd::arithmetic::div_mod::lemma_basic_div(field as int, mask as int);
            assert(self@ =~= before + (seq![negative] + msb_bits(0, 0)));
        }
        while done < width
            invariant
                self.wf(),
                1 <= done <= width <= 11,
                0 <= field < half,
                before == old(self)@,
                half == pow2((width - 1) as nat),
                mask == pow2((width - done) as nat),
                self@ == before + (seq![negative] + msb_bits(
                    (field as int / (mask as int)) as nat,
                    (done - 1) as nat,
                )),
            decreases width - done,
        {
            let ghost upper = (field as int / (mask as int)) as nat;
            proof {
                lemma2_to64();
                lemma_pow2_unfold((width - done) as nat);
                lemma_div_denominator(field as int, (mask / 2) as int, 2);
            }
            mask = mask / 2;
            let bit = (field / mask) % 2;
            self.write_bit(bit as u8);
            done = done + 1;
            proof {
                let lower = (field as int / (mask as int)) as nat;
                assert(lower / 2 == upper);
                assert(msb_bits(lower, (done - 1) as nat) == msb_bits(upper, (done - 2) as nat).push(
                    lower % 2 == 1,
                ));
                assert(self@ =~= before + (seq![negative] + msb_bits(lower, (done - 1) as nat)));
            }
        }
        proof {
            lemma2_to64();
            assert(mask == 1);
            assert(field as int / 1 == field as int);
            assert(self@ =~= before + varint_bits(value as int));
        }
        Ok(())
    }

    /// Appends a code vector: one bit for each entry up to the first
    /// negative one.
    pub fn write_vec(&mut self, values: &[i8])
        requires
            old(self).wf(),
        ensures
            final(self).wf(),
            final(self)@ == old(self)@ + code_bits(values@),
    {
        let ghost before = self@;
        let mut i: usize = 0;
        proof {
            assert(values@.skip(0) =~= values@);
        }
        while i < values.len()
            invariant
                self.wf(),
                0 <= i <= values.len(),
                before == old(self)@,
                before + code_bits(values@) == self@ + code_bits(values@.skip(i as int)),
            decreases values.len() - i,
        {
            let d = values[i];
            if d < 0 {
                proof {
                    assert(code_bits(values@.skip(i as int)) =~= Seq::<bool>::empty());
                    assert(self@ =~= before + code_bits(values@));
                }
                return ;
            }
            let ghost sofar = self@;
            self.write_bit(d as u8);
            proof {
                let rest = values@.skip(i as int);
                assert(rest[0] == d);
                assert(rest.skip(1) =~= values@.skip(i + 1));
                assert(sofar + code_bits(rest) =~= self@ + code_bits(values@.skip(i + 1)));
            }
            i = i + 1;
        }
        proof {
            assert(code_bits(values@.skip(i as int)) =~= Seq::<bool>::empty());
            assert(self@ =~= before + code_bits(values@));
        }
    }
}

/// Reads bits from a byte slice, each byte from its least significant bit
/// up.
pub struct BitReader<'a> {
    source: &'a [u8],
    byte_pos: usize,
    bit_pos: u8,
}

impl<'a> View for BitReader<'a> {
    type V = Seq<bool>;

    /// The bits that are still to be read.
    closed spec fn view(&self) -> Seq<bool> {
        bits_of_bytes(self.source@).skip(8 * self.byte_pos + self.bit_pos)
    }
}

impl<'a> BitReader<'a> {
    /// The position lies within the source, and inside a byte only where
    /// there is one.
    pub closed spec fn wf(&self) -> bool {
        &&& self.bit_pos < 8
        &&& self.byte_pos <= self.source@.len()
        &&& self.bit_pos > 0 ==> self.byte_pos < self.source@.len()
    }

    /// A reader at the first bit of `source`.
    pub fn new(source: &'a [u8]) -> (r: BitReader<'a>)
        ensures
            r.wf(),
            r@ == bits_of_bytes(source@),
    {
        let r = BitReader { source, byte_pos: 0, bit_pos: 0 };
        assert(r@ =~= bits_of_bytes(source@));
        r
    }

    /// Takes the next bit, as 0 or 1. Fails, and takes nothing, when none is
    /// left.
    pub fn read_bit(&mut self) -> (r: Result<u8, CodecError>)
        requires
            old(self).wf(),
        ensures
            final(self).wf(),
            match r {
                Ok(bit) => {
                    &&& old(self)@.len() > 0
                    &&& bit <= 1
                    &&& (bit == 1) == old(self)@[0]
                    &&& final(self)@ == old(self)@.skip(1)
                },
                Err(e) => {
                    &&& e == CodecError::UnexpectedEof
                    &&& old(self)@.len() == 0
                    &&& final(self)@ == old(self)@
                },
            },
    {
        let ghost all = bits_of_bytes(self.source@);
        let ghost at = 8 * self.byte_pos + self.bit_pos;
        if self.byte_pos >= self.source.len() {
            return Err(CodecError::UnexpectedEof);
        }
        let byte = self.source[self.byte_pos];
        let bit = (byte >> self.bit_pos) & 1;
        proof {
            lemma_bit_is_zero_or_one(byte, self.bit_pos);
            assert(at / 8 == self.byte_pos as int);
            assert(at % 8 == self.bit_pos as int);
            assert(all[at] == byte_bit(byte, self.bit_pos as int));
            assert(all.skip(at)[0] == all[at]);
            assert(all.skip(at).skip(1) =~= all.skip(at + 1));
        }
        if self.bit_pos == 7 {
            self.bit_pos = 0;
            self.byte_pos = self.byte_pos + 1;
        } else {
            self.bit_pos = self.bit_pos + 1;
        }
        Ok(bit)
    }

    /// Reads one symbol through the trie `decoder`. When the bits run out
    /// inside a code, fails with everything consumed.
    pub fn decode_huffman(&mut self, decoder: &[[i16; 2]]) -> (r: Result<u8, CodecError>)
        requires
            old(self).wf(),
            huffman_table_wf(decoder@),
        ensures
            final(self).wf(),
            match huffman_decode(decoder@, old(self)@) {
                Some((symbol, used)) => {
                    &&& r == Ok::<u8, CodecError>(symbol)
                    &&& 0 < used <= old(self)@.len()
                    &&& final(self)@ == old(self)@.skip(used)
                },
                None => {
                    &&& r == Err::<u8, CodecError>(CodecError::UnexpectedEof)
                    &&& final(self)@.len() == 0
                },
            },
    {
        let ghost bits = self@;
        let mut node: usize = 0;
        let ghost mut at: int = 0;
        proof {
            assert(bits.skip(0) =~= bits);
        }
        loop
            invariant
                self.wf(),
                huffman_table_wf(decoder@),
                bits == old(self)@,
                0 <= at <= bits.len(),
                0 <= node < decoder@.len(),
                self@ == bits.skip(at),
                huffman_walk(decoder@, node as int, bits, at) == huffman_decode(decoder@, bits),
            decreases bits.len() - at,
        {
            let got = self.read_bit();
            let bit = match got {
                Ok(bit) => bit,
                Err(e) => {
                    proof {
                        assert(bits.skip(at).len() == 0);
                    }
                    return Err(e);
                },
            };
            proof {
                assert(bits.skip(at)[0] == bits[at]);
                assert(bits.skip(at).skip(1) =~= bits.skip(at + 1));
            }
            let ghost index = if bits[at] {
                1int
            } else {
                0int
            };
            assert(bit as int == index);
            let next = decoder[node][bit as usize];
            assert(next == decoder@[node as int][index]);
            if next <= 0 {
                return Ok((-next) as u8);
            }
            node = node + next as usize;
            proof {
                at = at + 1;
            }
        }
    }

    /// Reads a signed integer coded in `width` bits. A width of zero reads
    /// nothing and gives 0; a width above eleven is refused with nothing
    /// read. When the bits run out, fails with everything consumed.
    pub fn read_varint(&mut self, width: u8) -> (r: Result<i16, CodecError>)
        requires
            old(self).wf(),
        ensures
            final(self).wf(),
            match r {
                Ok(value) => {
                    &&& width <= 11
                    &&& width <= old(self)@.len()
                    &&& value == varint_value(old(self)@.take(width as int))
                    &&& -2047 <= value <= 2047
                    &&& final(self)@ == old(self)@.skip(width as int)
                },
                Err(e) => {
                    ||| {
                        &&& width > 11
                        &&& e == CodecError::WidthTooBig
                        &&& final(self)@ == old(self)@
                    }
                    ||| {
                        &&& width <= 11
                        &&& old(self)@.len() < width
                        &&& e == CodecError::UnexpectedEof
                        &&& final(self)@.len() == 0
                    }
                },
            },
    {
        let ghost bits = self@;
        if width == 0 {
            proof {
                assert(bits.skip(0) =~= bits);
            }
            return Ok(0);
        }
        if width > 11 {
            return Err(CodecError::WidthTooBig);
        }
        let sign = match self.read_bit() {
            Ok(bit) => bit,
            Err(e) => {
                return Err(e);
            },
        };
        let mut field: i16 = 0;
        let mut done: u8 = 1;
        proof {
            lemma2_to64();
            assert(bits.subrange(1, 1) =~= Seq::<bool>::empty());
        }
        while done < width
            invariant
                self.wf(),
                bits == old(self)@,
                1 <= done <= width <= 11,
                done <= bits.len(),
                self@ == bits.skip(done as int),
                field == bits_value(bits.subrange(1, done as int)),
                0 <= field < pow2((done - 1) as nat),
            decreases width - done,
        {
            let bit = match self.read_bit() {
                Ok(bit) => bit,
                Err(e) => {
                    proof {
                        assert(bits.skip(done as int).len() == 0);
                    }
                    return Err(e);
                },
            };
            proof {
                lemma2_to64();
                lemma_pow2_unfold(done as nat);
                if done < 10 {
                    lemma_pow2_strictly_increases(done as nat, 10);
                }
                let longer = bits.subrange(1, done + 1);
                assert(longer.drop_last() =~= bits.subrange(1, done as int));
                assert(longer.last() == bits[done as int]);
                assert(bits.skip(done as int)[0] == bits[done as int]);
                assert(bits.skip(done as int).skip(1) =~= bits.skip(done + 1));
            }
            field = 2 * field + bit as i16;
            done = done + 1;
        }
        proof {
            lemma_width_offsets(width as int);
            lemma2_to64();
            if width < 11 {
                lemma_pow2_strictly_increases((width - 1) as nat, 10);
            }
            let code = bits.take(width as int);
            assert(code.skip(1) =~= bits.subrange(1, width as int));
            assert(code[0] == bits[0]);
        }
        let half: i16 = WIDTH_OFFSETS[width as usize];
        if sign > 0 {
            Ok(-((half - 1) - field) - half)
        } else {
            Ok(field + half)
        }
    }
}

} // verus!
