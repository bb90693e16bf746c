//! Code vectors and the trie that reads them: what holds of any table.

use crate::bitio::{code_bits, huffman_walk};
use vstd::prelude::*;

verus! {

/// Follows the trie along a code vector from entry `i` on. Gives the symbol
/// of the leaf that the vector ends on, and `None` if it ends anywhere else.
pub open spec fn walk_code(table: Seq<[i16; 2]>, node: int, values: Seq<i8>, i: int) -> Option<u8>
    decreases values.len() - i,
{
    if i < 0 || i >= values.len() || values[i] < 0 {
        None
    } else {
        let child = table[node][if values[i] > 0 {
            1int
        } else {
            0int
        }];
        if child <= 0 {
            if i + 1 == values.len() || values[i + 1] < 0 {
                Some((-child) as u8)
            } else {
                None
            }
        } else {
            walk_code(table, node + child, values, i + 1)
        }
    }
}

/// The bits of a code vector are its entries before the first negative one.
pub proof fn lemma_code_bits_entries(values: Seq<i8>)
    ensures
        code_bits(values).len() <= values.len(),
        code_bits(values).len() < values.len() ==> values[code_bits(values).len() as int] < 0,
        forall|j: int|
            #![trigger values[j]]
            0 <= j < code_bits(values).len() ==> values[j] >= 0 && code_bits(values)[j] == (values[j]
                > 0),
    decreases values.len(),
{
    if values.len() == 0 || values[0] < 0 {
    } else {
        let tail = values.skip(1);
        lemma_code_bits_entries(tail);
        let bits = code_bits(values);
        assert(bits == seq![values[0] > 0] + code_bits(tail));
        assert forall|j: int| #![trigger values[j]] 0 <= j < bits.len() implies values[j] >= 0
            && bits[j] == (values[j] > 0) by {
            if j > 0 {
                assert(tail[j - 1] == values[j]);
                assert(bits[j] == code_bits(tail)[j - 1]);
            }
        }
        if bits.len() < values.len() {
            assert(tail[code_bits(tail).len() as int] == values[bits.len() as int]);
        }
    }
}

/// Where a code vector leads to a leaf, so do its bits, whatever follows
/// them.
pub proof fn lemma_walk_code_walks_bits(
    table: Seq<[i16; 2]>,
    node: int,
    values: Seq<i8>,
    i: int,
    rest: Seq<bool>,
    symbol: u8,
)
    requires
        0 <= i <= code_bits(values).len(),
        walk_code(table, node, values, i) == Some(symbol),
    ensures
        i < code_bits(values).len(),
        huffman_walk(table, node, code_bits(values) + rest, i) == Some(
            (symbol, code_bits(values).len() as int),
        ),
    decreases values.len() - i,
{
    lemma_code_bits_entries(values);
    let bits = code_bits(values) + rest;
    let n = code_bits(values).len() as int;
    assert(i < n);
    assert(bits[i] == (values[i] > 0));
    let child = table[node][if values[i] > 0 {
        1int
    } else {
        0int
    }];
    if child <= 0 {
        if n > i + 1 {
            assert(values[i + 1] >= 0);
        }
    } else {
        lemma_walk_code_walks_bits(table, node + child, values, i + 1, rest, symbol);
    }
}


} // verus!
