//! A block-transform video codec: the bit-level coder, the entropy coding of
//! quantized blocks, motion maps, the frame scheduler and the container
//! framing, each with a machine-checked contract.

pub mod bitio;
pub mod blocks;
pub mod container;
pub mod decoder;
pub mod endian;
pub mod error;
pub mod huffman;
pub mod motion;
pub mod planes;
pub mod quant;
pub mod schedule;
pub mod tables;
pub mod videocode;
