//! The fixed entropy tables: one code per run-and-width symbol, shared by
//! luma and chroma, and the trie that reads the codes back.

use crate::bitio::{code_bits, huffman_decode, huffman_table_wf, BitReader, BitWriter};
use crate::error::CodecError;
use crate::huffman::{lemma_code_bits_entries, lemma_walk_code_walks_bits, walk_code};
use vstd::prelude::*;

verus! {

/// The trie that reads the codes back. Node 0 is the root. A positive entry
/// is the distance to a child node; any other entry is a leaf holding the
/// negated symbol.
pub const HUFFMAN_DECODE: [[i16; 2]; 162] = [
    [1, 2], [-1, -2], [1, 2], [-3, 2], [2, 3], [0, -4],
    [-17, 2], [2, 3], [-5, -18], [-33, 2], [2, 3], [-49, -65],
    [2, 3], [3, 4], [-6, -19], [-81, -97], [2, 3], [3, 4],
    [-7, -34], [-113, 3], [3, 4], [4, 5], [-20, -50], [-129, -145],
    [-161, 3], [3, 4], [4, 5], [-8, -35], [-66, -177], [-193, 3],
    [3, 4], [4, 5], [-21, -82], [-209, -240], [3, 4], [4, 5],
    [5, 6], [-36, -51], [-98, -114], [4, 5], [5, 6], [6, 7],
    [7, 8], [8, 9], [9, 10], [10, 11], [11, 12], [12, 13],
    [13, 14], [14, 15], [15, 16], [16, 17], [17, 18], [18, 19],
    [19, 20], [20, 21], [21, 22], [22, 23], [23, 24], [24, 25],
    [25, 26], [26, 27], [27, 28], [28, 29], [29, 30], [30, 31],
    [31, 32], [-130, 32], [32, 33], [33, 34], [34, 35], [35, 36],
    [36, 37], [37, 38], [38, 39], [39, 40], [40, 41], [41, 42],
    [42, 43], [43, 44], [44, 45], [45, 46], [46, 47], [47, 48],
    [48, 49], [49, 50], [50, 51], [51, 52], [52, 53], [53, 54],
    [54, 55], [55, 56], [56, 57], [57, 58], [58, 59], [59, 60],
    [60, 61], [61, 62], [62, 63], [-9, -10], [-22, -23], [-24, -25],
    [-26, -37], [-38, -39], [-40, -41], [-42, -52], [-53, -54], [-55, -56],
    [-57, -58], [-67, -68], [-69, -70], [-71, -72], [-73, -74], [-83, -84],
    [-85, -86], [-87, -88], [-89, -90], [-99, -100], [-101, -102], [-103, -104],
    [-105, -106], [-115, -116], [-117, -118], [-119, -120], [-121, -122], [-131, -132],
    [-133, -134], [-135, -136], [-137, -138], [-146, -147], [-148, -149], [-150, -151],
    [-152, -153], [-154, -162], [-163, -164], [-165, -166], [-167, -168], [-169, -170],
    [-178, -179], [-180, -181], [-182, -183], [-184, -185], [-186, -194], [-195, -196],
    [-197, -198], [-199, -200], [-201, -202], [-210, -211], [-212, -213], [-214, -215],
    [-216, -217], [-218, -225], [-226, -227], [-228, -229], [-230, -231], [-232, -233],
    [-234, -241], [-242, -243], [-244, -245], [-246, -247], [-248, -249], [-250, 0],
];

/// Whether the symbol has a code: the end-of-block and zero-run symbols, and
/// every run of zeros followed by a width from one to ten.
pub open spec fn symbol_is_coded(symbol: u8) -> bool {
    symbol == 0x00 || symbol == 0xF0 || 1 <= symbol % 16 <= 10
}

/// The code vector of a symbol: up to sixteen bits, ended by a negative
/// entry. A symbol without a code has a negative first entry.
pub open spec fn code_vector(symbol: u8) -> [i8; 16] {
    match symbol {
        0x00 => [1, 0, 1, 0, -1i8, -1i8, -1i8, -1i8, -1i8, -1i8, -1i8, -1i8, -1i8, -1i8, -1i8, -1i8],
        0x01 => [0, 0, -1i8, -1i8, -1i8, -1i8, -1i8, -1i8, -1i8, -1i8, -1i8, -1i8, -1i8, -1i8, -1i8, -1i8],
        0x02 => [0, 1, -1i8, -1i8, -1i8, -1i8, -1i8, -1i8, -1i8, -1i8, -1i8, -1i8, -1i8, -1i8, -1i8, -1i8],
        0x03 => [1, 0, 0, -1i8, -1i8, -1i8, -1i8, -1i8, -1i8, -1i8, -1i8, -1i8, -1i8, -1i8, -1i8, -1i8],
        0x04 => [1, 0, 1, 1, -1i8, -1i8, -1i8, -1i8, -1i8, -1i8, -1i8, -1i8, -1i8, -1i8, -1i8, -1i8],
        0x05 => [1, 1, 0, 1, 0, -1i8, -1i8, -1i8, -1i8, -1i8, -1i8, -1i8, -1i8, -1i8, -1i8, -1i8],
        0x06 => [1, 1, 1, 1, 0, 0, 0, -1i8, -1i8, -1i8, -1i8, -1i8, -1i8, -1i8, -1i8, -1i8],
        0x07 => [1, 1, 1, 1, 1, 0, 0, 0, -1i8, -1i8, -1i8, -1i8, -1i8, -1i8, -1i8, -1i8],
        0x08 => [1, 1, 1, 1, 1, 1, 0, 1, 1, 0, -1i8, -1i8, -1i8, -1i8, -1i8, -1i8],
        0x09 => [1, 1, 1, 1, 1, 1, 1, 1, 1, 0, 0, 0, 0, 0, 1, 0],
        0x0A => [1, 1, 1, 1, 1, 1, 1, 1, 1, 0, 0, 0, 0, 0, 1, 1],
        0x11 => [1, 1, 0, 0, -1i8, -1i8, -1i8, -1i8, -1i8, -1i8, -1i8, -1i8, -1i8, -1i8, -1i8, -1i8],
        0x12 => [1, 1, 0, 1, 1, -1i8, -1i8, -1i8, -1i8, -1i8, -1i8, -1i8, -1i8, -1i8, -1i8, -1i8],
        0x13 => [1, 1, 1, 1, 0, 0, 1, -1i8, -1i8, -1i8, -1i8, -1i8, -1i8, -1i8, -1i8, -1i8],
        0x14 => [1, 1, 1, 1, 1, 0, 1, 1, 0, -1i8, -1i8, -1i8, -1i8, -1i8, -1i8, -1i8],
        0x15 => [1, 1, 1, 1, 1, 1, 1, 0, 1, 1, 0, -1i8, -1i8, -1i8, -1i8, -1i8],
        0x16 => [1, 1, 1, 1, 1, 1, 1, 1, 1, 0, 0, 0, 0, 1, 0, 0],
        0x17 => [1, 1, 1, 1, 1, 1, 1, 1, 1, 0, 0, 0, 0, 1, 0, 1],
        0x18 => [1, 1, 1, 1, 1, 1, 1, 1, 1, 0, 0, 0, 0, 1, 1, 0],
        0x19 => [1, 1, 1, 1, 1, 1, 1, 1, 1, 0, 0, 0, 0, 1, 1, 1],
        0x1A => [1, 1, 1, 1, 1, 1, 1, 1, 1, 0, 0, 0, 1, 0, 0, 0],
        0x21 => [1, 1, 1, 0, 0, -1i8, -1i8, -1i8, -1i8, -1i8, -1i8, -1i8, -1i8, -1i8, -1i8, -1i8],
        0x22 => [1, 1, 1, 1, 1, 0, 0, 1, -1i8, -1i8, -1i8, -1i8, -1i8, -1i8, -1i8, -1i8],
        0x23 => [1, 1, 1, 1, 1, 1, 0, 1, 1, 1, -1i8, -1i8, -1i8, -1i8, -1i8, -1i8],
        0x24 => [1, 1, 1, 1, 1, 1, 1, 1, 0, 1, 0, 0, -1i8, -1i8, -1i8, -1i8],
        0x25 => [1, 1, 1, 1, 1, 1, 1, 1, 1, 0, 0, 0, 1, 0, 0, 1],
        0x26 => [1, 1, 1, 1, 1, 1, 1, 1, 1, 0, 0, 0, 1, 0, 1, 0],
        0x27 => [1, 1, 1, 1, 1, 1, 1, 1, 1, 0, 0, 0, 1, 0, 1, 1],
        0x28 => [1, 1, 1, 1, 1, 1, 1, 1, 1, 0, 0, 0, 1, 1, 0, 0],
        0x29 => [1, 1, 1, 1, 1, 1, 1, 1, 1, 0, 0, 0, 1, 1, 0, 1],
        0x2A => [1, 1, 1, 1, 1, 1, 1, 1, 1, 0, 0, 0, 1, 1, 1, 0],
        0x31 => [1, 1, 1, 0, 1, 0, -1i8, -1i8, -1i8, -1i8, -1i8, -1i8, -1i8, -1i8, -1i8, -1i8],
        0x32 => [1, 1, 1, 1, 1, 0, 1, 1, 1, -1i8, -1i8, -1i8, -1i8, -1i8, -1i8, -1i8],
        0x33 => [1, 1, 1, 1, 1, 1, 1, 1, 0, 1, 0, 1, -1i8, -1i8, -1i8, -1i8],
        0x34 => [1, 1, 1, 1, 1, 1, 1, 1, 1, 0, 0, 0, 1, 1, 1, 1],
        0x35 => [1, 1, 1, 1, 1, 1, 1, 1, 1, 0, 0, 1, 0, 0, 0, 0],
        0x36 => [1, 1, 1, 1, 1, 1, 1, 1, 1, 0, 0, 1, 0, 0, 0, 1],
        0x37 => [1, 1, 1, 1, 1, 1, 1, 1, 1, 0, 0, 1, 0, 0, 1, 0],
        0x38 => [1, 1, 1, 1, 1, 1, 1, 1, 1, 0, 0, 1, 0, 0, 1, 1],
        0x39 => [1, 1, 1, 1, 1, 1, 1, 1, 1, 0, 0, 1, 0, 1, 0, 0],
        0x3A => [1, 1, 1, 1, 1, 1, 1, 1, 1, 0, 0, 1, 0, 1, 0, 1],
        0x41 => [1, 1, 1, 0, 1, 1, -1i8, -1i8, -1i8, -1i8, -1i8, -1i8, -1i8, -1i8, -1i8, -1i8],
        0x42 => [1, 1, 1, 1, 1, 1, 1, 0, 0, 0, -1i8, -1i8, -1i8, -1i8, -1i8, -1i8],
        0x43 => [1, 1, 1, 1, 1, 1, 1, 1, 1, 0, 0, 1, 0, 1, 1, 0],
        0x44 => [1, 1, 1, 1, 1, 1, 1, 1, 1, 0, 0, 1, 0, 1, 1, 1],
        0x45 => [1, 1, 1, 1, 1, 1, 1, 1, 1, 0, 0, 1, 1, 0, 0, 0],
        0x46 => [1, 1, 1, 1, 1, 1, 1, 1, 1, 0, 0, 1, 1, 0, 0, 1],
        0x47 => [1, 1, 1, 1, 1, 1, 1, 1, 1, 0, 0, 1, 1, 0, 1, 0],
        0x48 => [1, 1, 1, 1, 1, 1, 1, 1, 1, 0, 0, 1, 1, 0, 1, 1],
        0x49 => [1, 1, 1, 1, 1, 1, 1, 1, 1, 0, 0, 1, 1, 1, 0, 0],
        0x4A => [1, 1, 1, 1, 1, 1, 1, 1, 1, 0, 0, 1, 1, 1, 0, 1],
        0x51 => [1, 1, 1, 1, 0, 1, 0, -1i8, -1i8, -1i8, -1i8, -1i8, -1i8, -1i8, -1i8, -1i8],
        0x52 => [1, 1, 1, 1, 1, 1, 1, 0, 1, 1, 1, -1i8, -1i8, -1i8, -1i8, -1i8],
        0x53 => [1, 1, 1, 1, 1, 1, 1, 1, 1, 0, 0, 1, 1, 1, 1, 0],
        0x54 => [1, 1, 1, 1, 1, 1, 1, 1, 1, 0, 0, 1, 1, 1, 1, 1],
        0x55 => [1, 1, 1, 1, 1, 1, 1, 1, 1, 0, 1, 0, 0, 0, 0, 0],
        0x56 => [1, 1, 1, 1, 1, 1, 1, 1, 1, 0, 1, 0, 0, 0, 0, 1],
        0x57 => [1, 1, 1, 1, 1, 1, 1, 1, 1, 0, 1, 0, 0, 0, 1, 0],
        0x58 => [1, 1, 1, 1, 1, 1, 1, 1, 1, 0, 1, 0, 0, 0, 1, 1],
        0x59 => [1, 1, 1, 1, 1, 1, 1, 1, 1, 0, 1, 0, 0, 1, 0, 0],
        0x5A => [1, 1, 1, 1, 1, 1, 1, 1, 1, 0, 1, 0, 0, 1, 0, 1],
        0x61 => [1, 1, 1, 1, 0, 1, 1, -1i8, -1i8, -1i8, -1i8, -1i8, -1i8, -1i8, -1i8, -1i8],
        0x62 => [1, 1, 1, 1, 1, 1, 1, 1, 0, 1, 1, 0, -1i8, -1i8, -1i8, -1i8],
        0x63 => [1, 1, 1, 1, 1, 1, 1, 1, 1, 0, 1, 0, 0, 1, 1, 0],
        0x64 => [1, 1, 1, 1, 1, 1, 1, 1, 1, 0, 1, 0, 0, 1, 1, 1],
        0x65 => [1, 1, 1, 1, 1, 1, 1, 1, 1, 0, 1, 0, 1, 0, 0, 0],
        0x66 => [1, 1, 1, 1, 1, 1, 1, 1, 1, 0, 1, 0, 1, 0, 0, 1],
        0x67 => [1, 1, 1, 1, 1, 1, 1, 1, 1, 0, 1, 0, 1, 0, 1, 0],
        0x68 => [1, 1, 1, 1, 1, 1, 1, 1, 1, 0, 1, 0, 1, 0, 1, 1],
        0x69 => [1, 1, 1, 1, 1, 1, 1, 1, 1, 0, 1, 0, 1, 1, 0, 0],
        0x6A => [1, 1, 1, 1, 1, 1, 1, 1, 1, 0, 1, 0, 1, 1, 0, 1],
        0x71 => [1, 1, 1, 1, 1, 0, 1, 0, -1i8, -1i8, -1i8, -1i8, -1i8, -1i8, -1i8, -1i8],
        0x72 => [1, 1, 1, 1, 1, 1, 1, 1, 0, 1, 1, 1, -1i8, -1i8, -1i8, -1i8],
        0x73 => [1, 1, 1, 1, 1, 1, 1, 1, 1, 0, 1, 0, 1, 1, 1, 0],
        0x74 => [1, 1, 1, 1, 1, 1, 1, 1, 1, 0, 1, 0, 1, 1, 1, 1],
        0x75 => [1, 1, 1, 1, 1, 1, 1, 1, 1, 0, 1, 1, 0, 0, 0, 0],
        0x76 => [1, 1, 1, 1, 1, 1, 1, 1, 1, 0, 1, 1, 0, 0, 0, 1],
        0x77 => [1, 1, 1, 1, 1, 1, 1, 1, 1, 0, 1, 1, 0, 0, 1, 0],
        0x78 => [1, 1, 1, 1, 1, 1, 1, 1, 1, 0, 1, 1, 0, 0, 1, 1],
        0x79 => [1, 1, 1, 1, 1, 1, 1, 1, 1, 0, 1, 1, 0, 1, 0, 0],
        0x7A => [1, 1, 1, 1, 1, 1, 1, 1, 1, 0, 1, 1, 0, 1, 0, 1],
        0x81 => [1, 1, 1, 1, 1, 1, 0, 0, 0, -1i8, -1i8, -1i8, -1i8, -1i8, -1i8, -1i8],
        0x82 => [1, 1, 1, 1, 1, 1, 1, 1, 1, 0, 0, 0, 0, 0, 0, -1i8],
        0x83 => [1, 1, 1, 1, 1, 1, 1, 1, 1, 0, 1, 1, 0, 1, 1, 0],
        0x84 => [1, 1, 1, 1, 1, 1, 1, 1, 1, 0, 1, 1, 0, 1, 1, 1],
        0x85 => [1, 1, 1, 1, 1, 1, 1, 1, 1, 0, 1, 1, 1, 0, 0, 0],
        0x86 => [1, 1, 1, 1, 1, 1, 1, 1, 1, 0, 1, 1, 1, 0, 0, 1],
        0x87 => [1, 1, 1, 1, 1, 1, 1, 1, 1, 0, 1, 1, 1, 0, 1, 0],
        0x88 => [1, 1, 1, 1, 1, 1, 1, 1, 1, 0, 1, 1, 1, 0, 1, 1],
        0x89 => [1, 1, 1, 1, 1, 1, 1, 1, 1, 0, 1, 1, 1, 1, 0, 0],
        0x8A => [1, 1, 1, 1, 1, 1, 1, 1, 1, 0, 1, 1, 1, 1, 0, 1],
        0x91 => [1, 1, 1, 1, 1, 1, 0, 0, 1, -1i8, -1i8, -1i8, -1i8, -1i8, -1i8, -1i8],
        0x92 => [1, 1, 1, 1, 1, 1, 1, 1, 1, 0, 1, 1, 1, 1, 1, 0],
        0x93 => [1, 1, 1, 1, 1, 1, 1, 1, 1, 0, 1, 1, 1, 1, 1, 1],
        0x94 => [1, 1, 1, 1, 1, 1, 1, 1, 1, 1, 0, 0, 0, 0, 0, 0],
        0x95 => [1, 1, 1, 1, 1, 1, 1, 1, 1, 1, 0, 0, 0, 0, 0, 1],
        0x96 => [1, 1, 1, 1, 1, 1, 1, 1, 1, 1, 0, 0, 0, 0, 1, 0],
        0x97 => [1, 1, 1, 1, 1, 1, 1, 1, 1, 1, 0, 0, 0, 0, 1, 1],
        0x98 => [1, 1, 1, 1, 1, 1, 1, 1, 1, 1, 0, 0, 0, 1, 0, 0],
        0x99 => [1, 1, 1, 1, 1, 1, 1, 1, 1, 1, 0, 0, 0, 1, 0, 1],
        0x9A => [1, 1, 1, 1, 1, 1, 1, 1, 1, 1, 0, 0, 0, 1, 1, 0],
        0xA1 => [1, 1, 1, 1, 1, 1, 0, 1, 0, -1i8, -1i8, -1i8, -1i8, -1i8, -1i8, -1i8],
        0xA2 => [1, 1, 1, 1, 1, 1, 1, 1, 1, 1, 0, 0, 0, 1, 1, 1],
        0xA3 => [1, 1, 1, 1, 1, 1, 1, 1, 1, 1, 0, 0, 1, 0, 0, 0],
        0xA4 => [1, 1, 1, 1, 1, 1, 1, 1, 1, 1, 0, 0, 1, 0, 0, 1],
        0xA5 => [1, 1, 1, 1, 1, 1, 1, 1, 1, 1, 0, 0, 1, 0, 1, 0],
        0xA6 => [1, 1, 1, 1, 1, 1, 1, 1, 1, 1, 0, 0, 1, 0, 1, 1],
        0xA7 => [1, 1, 1, 1, 1, 1, 1, 1, 1, 1, 0, 0, 1, 1, 0, 0],
        0xA8 => [1, 1, 1, 1, 1, 1, 1, 1, 1, 1, 0, 0, 1, 1, 0, 1],
        0xA9 => [1, 1, 1, 1, 1, 1, 1, 1, 1, 1, 0, 0, 1, 1, 1, 0],
        0xAA => [1, 1, 1, 1, 1, 1, 1, 1, 1, 1, 0, 0, 1, 1, 1, 1],
        0xB1 => [1, 1, 1, 1, 1, 1, 1, 0, 0, 1, -1i8, -1i8, -1i8, -1i8, -1i8, -1i8],
        0xB2 => [1, 1, 1, 1, 1, 1, 1, 1, 1, 1, 0, 1, 0, 0, 0, 0],
        0xB3 => [1, 1, 1, 1, 1, 1, 1, 1, 1, 1, 0, 1, 0, 0, 0, 1],
        0xB4 => [1, 1, 1, 1, 1, 1, 1, 1, 1, 1, 0, 1, 0, 0, 1, 0],
        0xB5 => [1, 1, 1, 1, 1, 1, 1, 1, 1, 1, 0, 1, 0, 0, 1, 1],
        0xB6 => [1, 1, 1, 1, 1, 1, 1, 1, 1, 1, 0, 1, 0, 1, 0, 0],
        0xB7 => [1, 1, 1, 1, 1, 1, 1, 1, 1, 1, 0, 1, 0, 1, 0, 1],
        0xB8 => [1, 1, 1, 1, 1, 1, 1, 1, 1, 1, 0, 1, 0, 1, 1, 0],
        0xB9 => [1, 1, 1, 1, 1, 1, 1, 1, 1, 1, 0, 1, 0, 1, 1, 1],
        0xBA => [1, 1, 1, 1, 1, 1, 1, 1, 1, 1, 0, 1, 1, 0, 0, 0],
        0xC1 => [1, 1, 1, 1, 1, 1, 1, 0, 1, 0, -1i8, -1i8, -1i8, -1i8, -1i8, -1i8],
        0xC2 => [1, 1, 1, 1, 1, 1, 1, 1, 1, 1, 0, 1, 1, 0, 0, 1],
        0xC3 => [1, 1, 1, 1, 1, 1, 1, 1, 1, 1, 0, 1, 1, 0, 1, 0],
        0xC4 => [1, 1, 1, 1, 1, 1, 1, 1, 1, 1, 0, 1, 1, 0, 1, 1],
        0xC5 => [1, 1, 1, 1, 1, 1, 1, 1, 1, 1, 0, 1, 1, 1, 0, 0],
        0xC6 => [1, 1, 1, 1, 1, 1, 1, 1, 1, 1, 0, 1, 1, 1, 0, 1],
        0xC7 => [1, 1, 1, 1, 1, 1, 1, 1, 1, 1, 0, 1, 1, 1, 1, 0],
        0xC8 => [1, 1, 1, 1, 1, 1, 1, 1, 1, 1, 0, 1, 1, 1, 1, 1],
        0xC9 => [1, 1, 1, 1, 1, 1, 1, 1, 1, 1, 1, 0, 0, 0, 0, 0],
        0xCA => [1, 1, 1, 1, 1, 1, 1, 1, 1, 1, 1, 0, 0, 0, 0, 1],
        0xD1 => [1, 1, 1, 1, 1, 1, 1, 1, 0, 0, 0, -1i8, -1i8, -1i8, -1i8, -1i8],
        0xD2 => [1, 1, 1, 1, 1, 1, 1, 1, 1, 1, 1, 0, 0, 0, 1, 0],
        0xD3 => [1, 1, 1, 1, 1, 1, 1, 1, 1, 1, 1, 0, 0, 0, 1, 1],
        0xD4 => [1, 1, 1, 1, 1, 1, 1, 1, 1, 1, 1, 0, 0, 1, 0, 0],
        0xD5 => [1, 1, 1, 1, 1, 1, 1, 1, 1, 1, 1, 0, 0, 1, 0, 1],
        0xD6 => [1, 1, 1, 1, 1, 1, 1, 1, 1, 1, 1, 0, 0, 1, 1, 0],
        0xD7 => [1, 1, 1, 1, 1, 1, 1, 1, 1, 1, 1, 0, 0, 1, 1, 1],
        0xD8 => [1, 1, 1, 1, 1, 1, 1, 1, 1, 1, 1, 0, 1, 0, 0, 0],
        0xD9 => [1, 1, 1, 1, 1, 1, 1, 1, 1, 1, 1, 0, 1, 0, 0, 1],
        0xDA => [1, 1, 1, 1, 1, 1, 1, 1, 1, 1, 1, 0, 1, 0, 1, 0],
        0xE1 => [1, 1, 1, 1, 1, 1, 1, 1, 1, 1, 1, 0, 1, 0, 1, 1],
        0xE2 => [1, 1, 1, 1, 1, 1, 1, 1, 1, 1, 1, 0, 1, 1, 0, 0],
        0xE3 => [1, 1, 1, 1, 1, 1, 1, 1, 1, 1, 1, 0, 1, 1, 0, 1],
        0xE4 => [1, 1, 1, 1, 1, 1, 1, 1, 1, 1, 1, 0, 1, 1, 1, 0],
        0xE5 => [1, 1, 1, 1, 1, 1, 1, 1, 1, 1, 1, 0, 1, 1, 1, 1],
        0xE6 => [1, 1, 1, 1, 1, 1, 1, 1, 1, 1, 1, 1, 0, 0, 0, 0],
        0xE7 => [1, 1, 1, 1, 1, 1, 1, 1, 1, 1, 1, 1, 0, 0, 0, 1],
        0xE8 => [1, 1, 1, 1, 1, 1, 1, 1, 1, 1, 1, 1, 0, 0, 1, 0],
        0xE9 => [1, 1, 1, 1, 1, 1, 1, 1, 1, 1, 1, 1, 0, 0, 1, 1],
        0xEA => [1, 1, 1, 1, 1, 1, 1, 1, 1, 1, 1, 1, 0, 1, 0, 0],
        0xF0 => [1, 1, 1, 1, 1, 1, 1, 1, 0, 0, 1, -1i8, -1i8, -1i8, -1i8, -1i8],
        0xF1 => [1, 1, 1, 1, 1, 1, 1, 1, 1, 1, 1, 1, 0, 1, 0, 1],
        0xF2 => [1, 1, 1, 1, 1, 1, 1, 1, 1, 1, 1, 1, 0, 1, 1, 0],
        0xF3 => [1, 1, 1, 1, 1, 1, 1, 1, 1, 1, 1, 1, 0, 1, 1, 1],
        0xF4 => [1, 1, 1, 1, 1, 1, 1, 1, 1, 1, 1, 1, 1, 0, 0, 0],
        0xF5 => [1, 1, 1, 1, 1, 1, 1, 1, 1, 1, 1, 1, 1, 0, 0, 1],
        0xF6 => [1, 1, 1, 1, 1, 1, 1, 1, 1, 1, 1, 1, 1, 0, 1, 0],
        0xF7 => [1, 1, 1, 1, 1, 1, 1, 1, 1, 1, 1, 1, 1, 0, 1, 1],
        0xF8 => [1, 1, 1, 1, 1, 1, 1, 1, 1, 1, 1, 1, 1, 1, 0, 0],
        0xF9 => [1, 1, 1, 1, 1, 1, 1, 1, 1, 1, 1, 1, 1, 1, 0, 1],
        0xFA => [1, 1, 1, 1, 1, 1, 1, 1, 1, 1, 1, 1, 1, 1, 1, 0],
        _ => [
            -1i8, -1i8, -1i8, -1i8, -1i8, -1i8, -1i8, -1i8,
            -1i8, -1i8, -1i8, -1i8, -1i8, -1i8, -1i8, -1i8,
        ],
    }
}

/// Whether the code of `symbol` leads from the root of the trie to the leaf
/// that holds `symbol`, and ends there.
#[verifier::opaque]
pub open spec fn code_leads_to_symbol(symbol: u8) -> bool {
    walk_code(HUFFMAN_DECODE@, 0, code_vector(symbol)@, 0) == Some(symbol)
}

/// Every code leads to the leaf of its own symbol.
#[verifier::rlimit(60)]
pub proof fn lemma_codes_lead_to_symbols(symbol: u8)
    requires
        symbol_is_coded(symbol),
    ensures
        code_leads_to_symbol(symbol),
{
    reveal(code_leads_to_symbol);
    reveal_with_fuel(walk_code, 18);
}

/// The code of a symbol, as bits: what its code vector spells.
pub closed spec fn huffman_code(symbol: u8) -> Seq<bool> {
    code_bits(code_vector(symbol)@)
}

/// The first symbol that `bits` spell, with the number of bits it takes;
/// `None` where the bits end inside a code.
pub closed spec fn decode_symbol(bits: Seq<bool>) -> Option<(u8, int)> {
    huffman_decode(HUFFMAN_DECODE@, bits)
}

/// What `huffman_code` is, for those who need the bits themselves.
pub proof fn lemma_huffman_code_is_code_vector(symbol: u8)
    ensures
        huffman_code(symbol) == code_bits(code_vector(symbol)@),
{
}

/// What `decode_symbol` is: a walk through the decoding table.
pub proof fn lemma_decode_symbol_is_table_walk(bits: Seq<bool>)
    ensures
        decode_symbol(bits) == huffman_decode(HUFFMAN_DECODE@, bits),
{
}

/// Every code has between one and sixteen bits.
pub proof fn lemma_huffman_code_len(symbol: u8)
    requires
        symbol_is_coded(symbol),
    ensures
        1 <= huffman_code(symbol).len() <= 16,
{
    lemma_huffman_round_trip(symbol, Seq::empty());
}

/// Decoding reads back every symbol that has a code, and consumes exactly
/// its code.
pub proof fn lemma_huffman_round_trip(symbol: u8, rest: Seq<bool>)
    requires
        symbol_is_coded(symbol),
    ensures
        1 <= huffman_code(symbol).len() <= 16,
        decode_symbol(huffman_code(symbol) + rest) == Some(
            (symbol, huffman_code(symbol).len() as int),
        ),
{
    lemma_codes_lead_to_symbols(symbol);
    assert(walk_code(HUFFMAN_DECODE@, 0, code_vector(symbol)@, 0) == Some(symbol)) by {
        reveal(code_leads_to_symbol);
    }
    lemma_code_bits_entries(code_vector(symbol)@);
    lemma_walk_code_walks_bits(HUFFMAN_DECODE@, 0, code_vector(symbol)@, 0, rest, symbol);
}

/// The decoding table is a well-formed trie.
pub proof fn lemma_decode_table_wf()
    ensures
        huffman_table_wf(HUFFMAN_DECODE@),
{
    assert forall|node: int, bit: int| 0 <= node < 162 && 0 <= bit < 2 implies {
        let child = #[trigger] HUFFMAN_DECODE@[node][bit];
        &&& child > 0 ==> node + child < 162
        &&& child <= 0 ==> child >= -255
    } by {
        lemma_decode_entry_in_range(node, bit);
    }
}

proof fn lemma_decode_entry_in_range(node: int, bit: int)
    requires
        0 <= node < 162,
        0 <= bit < 2,
    ensures
        HUFFMAN_DECODE[node][bit] > 0 ==> node + HUFFMAN_DECODE[node][bit] < 162,
        HUFFMAN_DECODE[node][bit] <= 0 ==> HUFFMAN_DECODE[node][bit] >= -255,
{
}

/// The code vector of `symbol`.
pub fn huffman_code_vector(symbol: u8) -> (vector: [i8; 16])
    ensures
        vector == code_vector(symbol),
{
    match symbol {
        0x00 => [1, 0, 1, 0, -1i8, -1i8, -1i8, -1i8, -1i8, -1i8, -1i8, -1i8, -1i8, -1i8, -1i8, -1i8],
        0x01 => [0, 0, -1i8, -1i8, -1i8, -1i8, -1i8, -1i8, -1i8, -1i8, -1i8, -1i8, -1i8, -1i8, -1i8, -1i8],
        0x02 => [0, 1, -1i8, -1i8, -1i8, -1i8, -1i8, -1i8, -1i8, -1i8, -1i8, -1i8, -1i8, -1i8, -1i8, -1i8],
        0x03 => [1, 0, 0, -1i8, -1i8, -1i8, -1i8, -1i8, -1i8, -1i8, -1i8, -1i8, -1i8, -1i8, -1i8, -1i8],
        0x04 => [1, 0, 1, 1, -1i8, -1i8, -1i8, -1i8, -1i8, -1i8, -1i8, -1i8, -1i8, -1i8, -1i8, -1i8],
        0x05 => [1, 1, 0, 1, 0, -1i8, -1i8, -1i8, -1i8, -1i8, -1i8, -1i8, -1i8, -1i8, -1i8, -1i8],
        0x06 => [1, 1, 1, 1, 0, 0, 0, -1i8, -1i8, -1i8, -1i8, -1i8, -1i8, -1i8, -1i8, -1i8],
        0x07 => [1, 1, 1, 1, 1, 0, 0, 0, -1i8, -1i8, -1i8, -1i8, -1i8, -1i8, -1i8, -1i8],
        0x08 => [1, 1, 1, 1, 1, 1, 0, 1, 1, 0, -1i8, -1i8, -1i8, -1i8, -1i8, -1i8],
        0x09 => [1, 1, 1, 1, 1, 1, 1, 1, 1, 0, 0, 0, 0, 0, 1, 0],
        0x0A => [1, 1, 1, 1, 1, 1, 1, 1, 1, 0, 0, 0, 0, 0, 1, 1],
        0x11 => [1, 1, 0, 0, -1i8, -1i8, -1i8, -1i8, -1i8, -1i8, -1i8, -1i8, -1i8, -1i8, -1i8, -1i8],
        0x12 => [1, 1, 0, 1, 1, -1i8, -1i8, -1i8, -1i8, -1i8, -1i8, -1i8, -1i8, -1i8, -1i8, -1i8],
        0x13 => [1, 1, 1, 1, 0, 0, 1, -1i8, -1i8, -1i8, -1i8, -1i8, -1i8, -1i8, -1i8, -1i8],
        0x14 => [1, 1, 1, 1, 1, 0, 1, 1, 0, -1i8, -1i8, -1i8, -1i8, -1i8, -1i8, -1i8],
        0x15 => [1, 1, 1, 1, 1, 1, 1, 0, 1, 1, 0, -1i8, -1i8, -1i8, -1i8, -1i8],
        0x16 => [1, 1, 1, 1, 1, 1, 1, 1, 1, 0, 0, 0, 0, 1, 0, 0],
        0x17 => [1, 1, 1, 1, 1, 1, 1, 1, 1, 0, 0, 0, 0, 1, 0, 1],
        0x18 => [1, 1, 1, 1, 1, 1, 1, 1, 1, 0, 0, 0, 0, 1, 1, 0],
        0x19 => [1, 1, 1, 1, 1, 1, 1, 1, 1, 0, 0, 0, 0, 1, 1, 1],
        0x1A => [1, 1, 1, 1, 1, 1, 1, 1, 1, 0, 0, 0, 1, 0, 0, 0],
        0x21 => [1, 1, 1, 0, 0, -1i8, -1i8, -1i8, -1i8, -1i8, -1i8, -1i8, -1i8, -1i8, -1i8, -1i8],
        0x22 => [1, 1, 1, 1, 1, 0, 0, 1, -1i8, -1i8, -1i8, -1i8, -1i8, -1i8, -1i8, -1i8],
        0x23 => [1, 1, 1, 1, 1, 1, 0, 1, 1, 1, -1i8, -1i8, -1i8, -1i8, -1i8, -1i8],
        0x24 => [1, 1, 1, 1, 1, 1, 1, 1, 0, 1, 0, 0, -1i8, -1i8, -1i8, -1i8],
        0x25 => [1, 1, 1, 1, 1, 1, 1, 1, 1, 0, 0, 0, 1, 0, 0, 1],
        0x26 => [1, 1, 1, 1, 1, 1, 1, 1, 1, 0, 0, 0, 1, 0, 1, 0],
        0x27 => [1, 1, 1, 1, 1, 1, 1, 1, 1, 0, 0, 0, 1, 0, 1, 1],
        0x28 => [1, 1, 1, 1, 1, 1, 1, 1, 1, 0, 0, 0, 1, 1, 0, 0],
        0x29 => [1, 1, 1, 1, 1, 1, 1, 1, 1, 0, 0, 0, 1, 1, 0, 1],
        0x2A => [1, 1, 1, 1, 1, 1, 1, 1, 1, 0, 0, 0, 1, 1, 1, 0],
        0x31 => [1, 1, 1, 0, 1, 0, -1i8, -1i8, -1i8, -1i8, -1i8, -1i8, -1i8, -1i8, -1i8, -1i8],
        0x32 => [1, 1, 1, 1, 1, 0, 1, 1, 1, -1i8, -1i8, -1i8, -1i8, -1i8, -1i8, -1i8],
        0x33 => [1, 1, 1, 1, 1, 1, 1, 1, 0, 1, 0, 1, -1i8, -1i8, -1i8, -1i8],
        0x34 => [1, 1, 1, 1, 1, 1, 1, 1, 1, 0, 0, 0, 1, 1, 1, 1],
        0x35 => [1, 1, 1, 1, 1, 1, 1, 1, 1, 0, 0, 1, 0, 0, 0, 0],
        0x36 => [1, 1, 1, 1, 1, 1, 1, 1, 1, 0, 0, 1, 0, 0, 0, 1],
        0x37 => [1, 1, 1, 1, 1, 1, 1, 1, 1, 0, 0, 1, 0, 0, 1, 0],
        0x38 => [1, 1, 1, 1, 1, 1, 1, 1, 1, 0, 0, 1, 0, 0, 1, 1],
        0x39 => [1, 1, 1, 1, 1, 1, 1, 1, 1, 0, 0, 1, 0, 1, 0, 0],
        0x3A => [1, 1, 1, 1, 1, 1, 1, 1, 1, 0, 0, 1, 0, 1, 0, 1],
        0x41 => [1, 1, 1, 0, 1, 1, -1i8, -1i8, -1i8, -1i8, -1i8, -1i8, -1i8, -1i8, -1i8, -1i8],
        0x42 => [1, 1, 1, 1, 1, 1, 1, 0, 0, 0, -1i8, -1i8, -1i8, -1i8, -1i8, -1i8],
        0x43 => [1, 1, 1, 1, 1, 1, 1, 1, 1, 0, 0, 1, 0, 1, 1, 0],
        0x44 => [1, 1, 1, 1, 1, 1, 1, 1, 1, 0, 0, 1, 0, 1, 1, 1],
        0x45 => [1, 1, 1, 1, 1, 1, 1, 1, 1, 0, 0, 1, 1, 0, 0, 0],
        0x46 => [1, 1, 1, 1, 1, 1, 1, 1, 1, 0, 0, 1, 1, 0, 0, 1],
        0x47 => [1, 1, 1, 1, 1, 1, 1, 1, 1, 0, 0, 1, 1, 0, 1, 0],
        0x48 => [1, 1, 1, 1, 1, 1, 1, 1, 1, 0, 0, 1, 1, 0, 1, 1],
        0x49 => [1, 1, 1, 1, 1, 1, 1, 1, 1, 0, 0, 1, 1, 1, 0, 0],
        0x4A => [1, 1, 1, 1, 1, 1, 1, 1, 1, 0, 0, 1, 1, 1, 0, 1],
        0x51 => [1, 1, 1, 1, 0, 1, 0, -1i8, -1i8, -1i8, -1i8, -1i8, -1i8, -1i8, -1i8, -1i8],
        0x52 => [1, 1, 1, 1, 1, 1, 1, 0, 1, 1, 1, -1i8, -1i8, -1i8, -1i8, -1i8],
        0x53 => [1, 1, 1, 1, 1, 1, 1, 1, 1, 0, 0, 1, 1, 1, 1, 0],
        0x54 => [1, 1, 1, 1, 1, 1, 1, 1, 1, 0, 0, 1, 1, 1, 1, 1],
        0x55 => [1, 1, 1, 1, 1, 1, 1, 1, 1, 0, 1, 0, 0, 0, 0, 0],
        0x56 => [1, 1, 1, 1, 1, 1, 1, 1, 1, 0, 1, 0, 0, 0, 0, 1],
        0x57 => [1, 1, 1, 1, 1, 1, 1, 1, 1, 0, 1, 0, 0, 0, 1, 0],
        0x58 => [1, 1, 1, 1, 1, 1, 1, 1, 1, 0, 1, 0, 0, 0, 1, 1],
        0x59 => [1, 1, 1, 1, 1, 1, 1, 1, 1, 0, 1, 0, 0, 1, 0, 0],
        0x5A => [1, 1, 1, 1, 1, 1, 1, 1, 1, 0, 1, 0, 0, 1, 0, 1],
        0x61 => [1, 1, 1, 1, 0, 1, 1, -1i8, -1i8, -1i8, -1i8, -1i8, -1i8, -1i8, -1i8, -1i8],
        0x62 => [1, 1, 1, 1, 1, 1, 1, 1, 0, 1, 1, 0, -1i8, -1i8, -1i8, -1i8],
        0x63 => [1, 1, 1, 1, 1, 1, 1, 1, 1, 0, 1, 0, 0, 1, 1, 0],
        0x64 => [1, 1, 1, 1, 1, 1, 1, 1, 1, 0, 1, 0, 0, 1, 1, 1],
        0x65 => [1, 1, 1, 1, 1, 1, 1, 1, 1, 0, 1, 0, 1, 0, 0, 0],
        0x66 => [1, 1, 1, 1, 1, 1, 1, 1, 1, 0, 1, 0, 1, 0, 0, 1],
        0x67 => [1, 1, 1, 1, 1, 1, 1, 1, 1, 0, 1, 0, 1, 0, 1, 0],
        0x68 => [1, 1, 1, 1, 1, 1, 1, 1, 1, 0, 1, 0, 1, 0, 1, 1],
        0x69 => [1, 1, 1, 1, 1, 1, 1, 1, 1, 0, 1, 0, 1, 1, 0, 0],
        0x6A => [1, 1, 1, 1, 1, 1, 1, 1, 1, 0, 1, 0, 1, 1, 0, 1],
        0x71 => [1, 1, 1, 1, 1, 0, 1, 0, -1i8, -1i8, -1i8, -1i8, -1i8, -1i8, -1i8, -1i8],
        0x72 => [1, 1, 1, 1, 1, 1, 1, 1, 0, 1, 1, 1, -1i8, -1i8, -1i8, -1i8],
        0x73 => [1, 1, 1, 1, 1, 1, 1, 1, 1, 0, 1, 0, 1, 1, 1, 0],
        0x74 => [1, 1, 1, 1, 1, 1, 1, 1, 1, 0, 1, 0, 1, 1, 1, 1],
        0x75 => [1, 1, 1, 1, 1, 1, 1, 1, 1, 0, 1, 1, 0, 0, 0, 0],
        0x76 => [1, 1, 1, 1, 1, 1, 1, 1, 1, 0, 1, 1, 0, 0, 0, 1],
        0x77 => [1, 1, 1, 1, 1, 1, 1, 1, 1, 0, 1, 1, 0, 0, 1, 0],
        0x78 => [1, 1, 1, 1, 1, 1, 1, 1, 1, 0, 1, 1, 0, 0, 1, 1],
        0x79 => [1, 1, 1, 1, 1, 1, 1, 1, 1, 0, 1, 1, 0, 1, 0, 0],
        0x7A => [1, 1, 1, 1, 1, 1, 1, 1, 1, 0, 1, 1, 0, 1, 0, 1],
        0x81 => [1, 1, 1, 1, 1, 1, 0, 0, 0, -1i8, -1i8, -1i8, -1i8, -1i8, -1i8, -1i8],
        0x82 => [1, 1, 1, 1, 1, 1, 1, 1, 1, 0, 0, 0, 0, 0, 0, -1i8],
        0x83 => [1, 1, 1, 1, 1, 1, 1, 1, 1, 0, 1, 1, 0, 1, 1, 0],
        0x84 => [1, 1, 1, 1, 1, 1, 1, 1, 1, 0, 1, 1, 0, 1, 1, 1],
        0x85 => [1, 1, 1, 1, 1, 1, 1, 1, 1, 0, 1, 1, 1, 0, 0, 0],
        0x86 => [1, 1, 1, 1, 1, 1, 1, 1, 1, 0, 1, 1, 1, 0, 0, 1],
        0x87 => [1, 1, 1, 1, 1, 1, 1, 1, 1, 0, 1, 1, 1, 0, 1, 0],
        0x88 => [1, 1, 1, 1, 1, 1, 1, 1, 1, 0, 1, 1, 1, 0, 1, 1],
        0x89 => [1, 1, 1, 1, 1, 1, 1, 1, 1, 0, 1, 1, 1, 1, 0, 0],
        0x8A => [1, 1, 1, 1, 1, 1, 1, 1, 1, 0, 1, 1, 1, 1, 0, 1],
        0x91 => [1, 1, 1, 1, 1, 1, 0, 0, 1, -1i8, -1i8, -1i8, -1i8, -1i8, -1i8, -1i8],
        0x92 => [1, 1, 1, 1, 1, 1, 1, 1, 1, 0, 1, 1, 1, 1, 1, 0],
        0x93 => [1, 1, 1, 1, 1, 1, 1, 1, 1, 0, 1, 1, 1, 1, 1, 1],
        0x94 => [1, 1, 1, 1, 1, 1, 1, 1, 1, 1, 0, 0, 0, 0, 0, 0],
        0x95 => [1, 1, 1, 1, 1, 1, 1, 1, 1, 1, 0, 0, 0, 0, 0, 1],
        0x96 => [1, 1, 1, 1, 1, 1, 1, 1, 1, 1, 0, 0, 0, 0, 1, 0],
        0x97 => [1, 1, 1, 1, 1, 1, 1, 1, 1, 1, 0, 0, 0, 0, 1, 1],
        0x98 => [1, 1, 1, 1, 1, 1, 1, 1, 1, 1, 0, 0, 0, 1, 0, 0],
        0x99 => [1, 1, 1, 1, 1, 1, 1, 1, 1, 1, 0, 0, 0, 1, 0, 1],
        0x9A => [1, 1, 1, 1, 1, 1, 1, 1, 1, 1, 0, 0, 0, 1, 1, 0],
        0xA1 => [1, 1, 1, 1, 1, 1, 0, 1, 0, -1i8, -1i8, -1i8, -1i8, -1i8, -1i8, -1i8],
        0xA2 => [1, 1, 1, 1, 1, 1, 1, 1, 1, 1, 0, 0, 0, 1, 1, 1],
        0xA3 => [1, 1, 1, 1, 1, 1, 1, 1, 1, 1, 0, 0, 1, 0, 0, 0],
        0xA4 => [1, 1, 1, 1, 1, 1, 1, 1, 1, 1, 0, 0, 1, 0, 0, 1],
        0xA5 => [1, 1, 1, 1, 1, 1, 1, 1, 1, 1, 0, 0, 1, 0, 1, 0],
        0xA6 => [1, 1, 1, 1, 1, 1, 1, 1, 1, 1, 0, 0, 1, 0, 1, 1],
        0xA7 => [1, 1, 1, 1, 1, 1, 1, 1, 1, 1, 0, 0, 1, 1, 0, 0],
        0xA8 => [1, 1, 1, 1, 1, 1, 1, 1, 1, 1, 0, 0, 1, 1, 0, 1],
        0xA9 => [1, 1, 1, 1, 1, 1, 1, 1, 1, 1, 0, 0, 1, 1, 1, 0],
        0xAA => [1, 1, 1, 1, 1, 1, 1, 1, 1, 1, 0, 0, 1, 1, 1, 1],
        0xB1 => [1, 1, 1, 1, 1, 1, 1, 0, 0, 1, -1i8, -1i8, -1i8, -1i8, -1i8, -1i8],
        0xB2 => [1, 1, 1, 1, 1, 1, 1, 1, 1, 1, 0, 1, 0, 0, 0, 0],
        0xB3 => [1, 1, 1, 1, 1, 1, 1, 1, 1, 1, 0, 1, 0, 0, 0, 1],
        0xB4 => [1, 1, 1, 1, 1, 1, 1, 1, 1, 1, 0, 1, 0, 0, 1, 0],
        0xB5 => [1, 1, 1, 1, 1, 1, 1, 1, 1, 1, 0, 1, 0, 0, 1, 1],
        0xB6 => [1, 1, 1, 1, 1, 1, 1, 1, 1, 1, 0, 1, 0, 1, 0, 0],
        0xB7 => [1, 1, 1, 1, 1, 1, 1, 1, 1, 1, 0, 1, 0, 1, 0, 1],
        0xB8 => [1, 1, 1, 1, 1, 1, 1, 1, 1, 1, 0, 1, 0, 1, 1, 0],
        0xB9 => [1, 1, 1, 1, 1, 1, 1, 1, 1, 1, 0, 1, 0, 1, 1, 1],
        0xBA => [1, 1, 1, 1, 1, 1, 1, 1, 1, 1, 0, 1, 1, 0, 0, 0],
        0xC1 => [1, 1, 1, 1, 1, 1, 1, 0, 1, 0, -1i8, -1i8, -1i8, -1i8, -1i8, -1i8],
        0xC2 => [1, 1, 1, 1, 1, 1, 1, 1, 1, 1, 0, 1, 1, 0, 0, 1],
        0xC3 => [1, 1, 1, 1, 1, 1, 1, 1, 1, 1, 0, 1, 1, 0, 1, 0],
        0xC4 => [1, 1, 1, 1, 1, 1, 1, 1, 1, 1, 0, 1, 1, 0, 1, 1],
        0xC5 => [1, 1, 1, 1, 1, 1, 1, 1, 1, 1, 0, 1, 1, 1, 0, 0],
        0xC6 => [1, 1, 1, 1, 1, 1, 1, 1, 1, 1, 0, 1, 1, 1, 0, 1],
        0xC7 => [1, 1, 1, 1, 1, 1, 1, 1, 1, 1, 0, 1, 1, 1, 1, 0],
        0xC8 => [1, 1, 1, 1, 1, 1, 1, 1, 1, 1, 0, 1, 1, 1, 1, 1],
        0xC9 => [1, 1, 1, 1, 1, 1, 1, 1, 1, 1, 1, 0, 0, 0, 0, 0],
        0xCA => [1, 1, 1, 1, 1, 1, 1, 1, 1, 1, 1, 0, 0, 0, 0, 1],
        0xD1 => [1, 1, 1, 1, 1, 1, 1, 1, 0, 0, 0, -1i8, -1i8, -1i8, -1i8, -1i8],
        0xD2 => [1, 1, 1, 1, 1, 1, 1, 1, 1, 1, 1, 0, 0, 0, 1, 0],
        0xD3 => [1, 1, 1, 1, 1, 1, 1, 1, 1, 1, 1, 0, 0, 0, 1, 1],
        0xD4 => [1, 1, 1, 1, 1, 1, 1, 1, 1, 1, 1, 0, 0, 1, 0, 0],
        0xD5 => [1, 1, 1, 1, 1, 1, 1, 1, 1, 1, 1, 0, 0, 1, 0, 1],
        0xD6 => [1, 1, 1, 1, 1, 1, 1, 1, 1, 1, 1, 0, 0, 1, 1, 0],
        0xD7 => [1, 1, 1, 1, 1, 1, 1, 1, 1, 1, 1, 0, 0, 1, 1, 1],
        0xD8 => [1, 1, 1, 1, 1, 1, 1, 1, 1, 1, 1, 0, 1, 0, 0, 0],
        0xD9 => [1, 1, 1, 1, 1, 1, 1, 1, 1, 1, 1, 0, 1, 0, 0, 1],
        0xDA => [1, 1, 1, 1, 1, 1, 1, 1, 1, 1, 1, 0, 1, 0, 1, 0],
        0xE1 => [1, 1, 1, 1, 1, 1, 1, 1, 1, 1, 1, 0, 1, 0, 1, 1],
        0xE2 => [1, 1, 1, 1, 1, 1, 1, 1, 1, 1, 1, 0, 1, 1, 0, 0],
        0xE3 => [1, 1, 1, 1, 1, 1, 1, 1, 1, 1, 1, 0, 1, 1, 0, 1],
        0xE4 => [1, 1, 1, 1, 1, 1, 1, 1, 1, 1, 1, 0, 1, 1, 1, 0],
        0xE5 => [1, 1, 1, 1, 1, 1, 1, 1, 1, 1, 1, 0, 1, 1, 1, 1],
        0xE6 => [1, 1, 1, 1, 1, 1, 1, 1, 1, 1, 1, 1, 0, 0, 0, 0],
        0xE7 => [1, 1, 1, 1, 1, 1, 1, 1, 1, 1, 1, 1, 0, 0, 0, 1],
        0xE8 => [1, 1, 1, 1, 1, 1, 1, 1, 1, 1, 1, 1, 0, 0, 1, 0],
        0xE9 => [1, 1, 1, 1, 1, 1, 1, 1, 1, 1, 1, 1, 0, 0, 1, 1],
        0xEA => [1, 1, 1, 1, 1, 1, 1, 1, 1, 1, 1, 1, 0, 1, 0, 0],
        0xF0 => [1, 1, 1, 1, 1, 1, 1, 1, 0, 0, 1, -1i8, -1i8, -1i8, -1i8, -1i8],
        0xF1 => [1, 1, 1, 1, 1, 1, 1, 1, 1, 1, 1, 1, 0, 1, 0, 1],
        0xF2 => [1, 1, 1, 1, 1, 1, 1, 1, 1, 1, 1, 1, 0, 1, 1, 0],
        0xF3 => [1, 1, 1, 1, 1, 1, 1, 1, 1, 1, 1, 1, 0, 1, 1, 1],
        0xF4 => [1, 1, 1, 1, 1, 1, 1, 1, 1, 1, 1, 1, 1, 0, 0, 0],
        0xF5 => [1, 1, 1, 1, 1, 1, 1, 1, 1, 1, 1, 1, 1, 0, 0, 1],
        0xF6 => [1, 1, 1, 1, 1, 1, 1, 1, 1, 1, 1, 1, 1, 0, 1, 0],
        0xF7 => [1, 1, 1, 1, 1, 1, 1, 1, 1, 1, 1, 1, 1, 0, 1, 1],
        0xF8 => [1, 1, 1, 1, 1, 1, 1, 1, 1, 1, 1, 1, 1, 1, 0, 0],
        0xF9 => [1, 1, 1, 1, 1, 1, 1, 1, 1, 1, 1, 1, 1, 1, 0, 1],
        0xFA => [1, 1, 1, 1, 1, 1, 1, 1, 1, 1, 1, 1, 1, 1, 1, 0],
        _ => [
            -1i8, -1i8, -1i8, -1i8, -1i8, -1i8, -1i8, -1i8,
            -1i8, -1i8, -1i8, -1i8, -1i8, -1i8, -1i8, -1i8,
        ],
    }
}

/// Appends the code of `symbol`, which is to have one.
pub fn write_symbol(writer: &mut BitWriter, symbol: u8)
    requires
        old(writer).wf(),
        symbol_is_coded(symbol),
    ensures
        final(writer).wf(),
        final(writer)@ == old(writer)@ + huffman_code(symbol),
{
    let vector = huffman_code_vector(symbol);
    writer.write_vec(&vector);
}

/// Reads one symbol. When the bits end inside a code, fails with
/// everything consumed.
pub fn read_symbol(reader: &mut BitReader) -> (r: Result<u8, CodecError>)
    requires
        old(reader).wf(),
    ensures
        final(reader).wf(),
        match decode_symbol(old(reader)@) {
            Some((symbol, used)) => {
                &&& r == Ok::<u8, CodecError>(symbol)
                &&& 0 < used <= old(reader)@.len()
                &&& final(reader)@ == old(reader)@.skip(used)
            },
            None => {
                &&& r == Err::<u8, CodecError>(CodecError::UnexpectedEof)
                &&& final(reader)@.len() == 0
            },
        },
{
    proof {
        lemma_decode_table_wf();
    }
    reader.decode_huffman(&HUFFMAN_DECODE)
}

/// The number of bits in the code of `symbol`.
pub fn symbol_len(symbol: u8) -> (len: usize)
    ensures
        len == huffman_code(symbol).len(),
        len <= 16,
{
    let vector = huffman_code_vector(symbol);
    let mut len: usize = 0;
    proof {
        lemma_code_bits_entries(vector@);
    }
    while len < 16 && vector[len] >= 0
        invariant
            0 <= len <= 16,
            vector@.len() == 16,
            forall|j: int| 0 <= j < len ==> vector@[j] >= 0,
            len <= code_bits(vector@).len() <= 16,
            code_bits(vector@).len() < 16 ==> vector@[code_bits(vector@).len() as int] < 0,
            forall|j: int|
                #![trigger vector@[j]]
                0 <= j < code_bits(vector@).len() ==> vector@[j] >= 0,
        decreases 16 - len,
    {
        proof {
            if len as int == code_bits(vector@).len() {
                assert(vector@[len as int] < 0);
            }
        }
        len = len + 1;
    }
    len
}

} // verus!
