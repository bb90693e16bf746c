use nrvc::bitio::{BitReader, BitWriter};
use nrvc::blocks::{Block, UNWRAP_PATTERN, WRAP_PATTERN};
use nrvc::error::CodecError;
use nrvc::motion::{BlockType, MotionMap};
use nrvc::planes::Plane;
use nrvc::quant::{QMatrices, QMATRIX_CHROMA, QMATRIX_LUMA};
use nrvc::tables::{huffman_code_vector, read_symbol, symbol_len, write_symbol, HUFFMAN_DECODE};
use nrvc::videocode::VideoFrame;

fn coded_symbols() -> Vec<u8> {
    let mut symbols = vec![0x00u8, 0xF0];
    for run in 0..16u8 {
        for width in 1..=10u8 {
            symbols.push(run * 16 + width);
        }
    }
    symbols
}

fn encode(block: &Block<i16>) -> Vec<u8> {
    let mut writer = BitWriter::new(Vec::new());
    block.encode(&mut writer).unwrap();
    writer.finish()
}

fn round_trip(block: &Block<i16>) {
    let size = block.get_encoded_size().unwrap();
    let mut writer = BitWriter::new(Vec::new());
    block.encode(&mut writer).unwrap();
    writer.write_bit(1);
    let bytes = writer.finish();
    assert_eq!(bytes.len(), (size + 1 + 7) / 8);
    let mut reader = BitReader::new(&bytes);
    let mut back = Block::new(77i16);
    assert_eq!(back.decode(&mut reader), Ok(()));
    assert_eq!(back.0, block.0);
    assert_eq!(reader.read_bit(), Ok(1));
}

#[test]
fn zigzag_patterns_undo_each_other() {
    for i in 0..64 {
        assert_eq!(UNWRAP_PATTERN[WRAP_PATTERN[i]], i);
        assert_eq!(WRAP_PATTERN[UNWRAP_PATTERN[i]], i);
    }
    assert_eq!(&UNWRAP_PATTERN[..6], &[0, 1, 8, 16, 9, 2]);
    assert_eq!(UNWRAP_PATTERN[63], 63);
}

#[test]
fn unwrap_and_wrap_move_the_samples() {
    let mut block = Block::new(0u32);
    for i in 0..64 {
        block.0[i] = 100 + i as u32;
    }
    let mut zigzag = Block::new(0u32);
    block.unwrap(&mut zigzag);
    assert_eq!(&zigzag.0[..6], &[100, 101, 108, 116, 109, 102]);
    let mut back = Block::new(0u32);
    zigzag.wrap(&mut back);
    assert_eq!(back.0, block.0);
    let mut there = Block::new(0u32);
    block.wrap(&mut there);
    assert_eq!(&there.0[..4], &[100, 101, 105, 106]);
    let mut again = Block::new(0u32);
    there.unwrap(&mut again);
    assert_eq!(again.0, block.0);
}

#[test]
fn new_block_holds_one_value() {
    let block = Block::new(-3i16);
    assert!(block.0.iter().all(|v| *v == -3));
    let copy = block;
    assert_eq!(copy.0, block.0);
}

#[test]
fn int_width_by_powers_of_two() {
    let expect = [
        (0i16, 0usize),
        (1, 1),
        (-1, 1),
        (2, 2),
        (3, 2),
        (-3, 2),
        (4, 3),
        (7, 3),
        (8, 4),
        (255, 8),
        (256, 9),
        (-511, 9),
        (512, 10),
        (1023, 10),
        (-1023, 10),
        (1024, 11),
        (-1024, 11),
        (2047, 11),
        (i16::MAX, 11),
        (i16::MIN, 11),
    ];
    for (value, width) in expect {
        assert_eq!(Block::<i16>::int_width(value), width, "width of {}", value);
    }
}

#[test]
fn every_symbol_with_a_code_reads_back() {
    for symbol in coded_symbols() {
        let mut writer = BitWriter::new(Vec::new());
        write_symbol(&mut writer, symbol);
        writer.write_bit(1);
        let bytes = writer.finish();
        assert_eq!(bytes.len(), (symbol_len(symbol) + 1 + 7) / 8);
        let mut reader = BitReader::new(&bytes);
        assert_eq!(read_symbol(&mut reader), Ok(symbol));
        assert_eq!(reader.read_bit(), Ok(1));
    }
}

#[test]
fn symbols_without_a_code_have_an_empty_vector() {
    let coded = coded_symbols();
    let mut count = 0;
    for symbol in 0..=255u8 {
        if coded.contains(&symbol) {
            assert!(symbol_len(symbol) >= 2);
            count += 1;
        } else {
            assert_eq!(symbol_len(symbol), 0);
            assert_eq!(huffman_code_vector(symbol), [-1i8; 16]);
        }
    }
    assert_eq!(count, 162);
    assert_eq!(HUFFMAN_DECODE.len(), 162);
}

#[test]
fn code_lengths_of_some_symbols() {
    assert_eq!(symbol_len(0x00), 4);
    assert_eq!(symbol_len(0x01), 2);
    assert_eq!(symbol_len(0x02), 2);
    assert_eq!(symbol_len(0x03), 3);
    assert_eq!(symbol_len(0xF0), 11);
    assert_eq!(symbol_len(0xFA), 16);
    assert_eq!(huffman_code_vector(0x00)[..5], [1, 0, 1, 0, -1]);
    assert_eq!(huffman_code_vector(0x01)[..3], [0, 0, -1]);
}

#[test]
fn read_symbol_fails_when_the_bits_run_out() {
    let empty: [u8; 0] = [];
    let mut reader = BitReader::new(&empty);
    assert_eq!(read_symbol(&mut reader), Err(CodecError::UnexpectedEof));
    // Eight ones are inside every long code.
    let ones = [0xFFu8];
    let mut reader = BitReader::new(&ones);
    assert_eq!(read_symbol(&mut reader), Err(CodecError::UnexpectedEof));
}

#[test]
fn a_block_of_zeros_takes_one_byte() {
    let block = Block::new(0i16);
    // Width 0 of the first coefficient and the end of the block share the
    // code 1 0 1 0.
    assert_eq!(encode(&block), vec![0x55]);
    assert_eq!(block.get_encoded_size(), Ok(8));
    round_trip(&block);
}

#[test]
fn a_block_with_one_coefficient() {
    let mut block = Block::new(0i16);
    block.0[0] = 5;
    // Symbol 3 is 1 0 0; the code of 5 is 0 0 1; the end of the block is
    // 1 0 1 0.
    assert_eq!(encode(&block), vec![0b0110_0001, 0b01]);
    assert_eq!(block.get_encoded_size(), Ok(10));
    round_trip(&block);
}

#[test]
fn blocks_read_back() {
    let mut block = Block::new(0i16);
    for i in 0..64 {
        block.0[i] = (i as i16 * 37 % 2047) - 1023;
    }
    round_trip(&block);
    let mut sparse = Block::new(0i16);
    sparse.0[0] = -1023;
    sparse.0[1] = 1023;
    sparse.0[17] = 1;
    sparse.0[18] = -1;
    sparse.0[40] = 512;
    round_trip(&sparse);
    let mut last = Block::new(0i16);
    last.0[63] = -7;
    round_trip(&last);
    let mut first_only = Block::new(0i16);
    first_only.0[0] = 1;
    round_trip(&first_only);
    for place in 1..64 {
        let mut single = Block::new(0i16);
        single.0[place] = place as i16;
        round_trip(&single);
    }
}

#[test]
fn sixteen_zeros_take_a_zero_run_symbol() {
    let mut near = Block::new(0i16);
    near.0[16] = 1;
    let mut far = Block::new(0i16);
    far.0[17] = 1;
    // Fifteen zeros go into the symbol of the coefficient; the sixteenth
    // takes a zero-run symbol of eleven bits, and the symbol of a
    // coefficient right behind it is shorter.
    let near_size = near.get_encoded_size().unwrap();
    let far_size = far.get_encoded_size().unwrap();
    assert_eq!(near_size, 4 + symbol_len(0xF1) + 1 + 4);
    assert_eq!(far_size, 4 + symbol_len(0xF0) + symbol_len(0x01) + 1 + 4);
    round_trip(&near);
    round_trip(&far);
}

#[test]
fn a_block_that_ends_on_a_coefficient_has_no_end_symbol() {
    let mut block = Block::new(0i16);
    block.0[63] = 1;
    let size = block.get_encoded_size().unwrap();
    // Three zero runs cover positions 1 to 48; fourteen zeros remain.
    assert_eq!(size, 4 + 3 * symbol_len(0xF0) + symbol_len(0xE1) + 1);
    round_trip(&block);
}

#[test]
fn a_block_out_of_range_has_no_size() {
    let mut block = Block::new(0i16);
    assert!(block.in_range());
    block.0[63] = 1024;
    assert!(!block.in_range());
    assert_eq!(block.get_encoded_size(), Err(CodecError::CoefficientRange));
    block.0[63] = -1023;
    assert!(block.in_range());
    assert!(block.get_encoded_size().is_ok());
}

#[test]
fn decode_fails_on_truncated_input() {
    let mut block = Block::new(0i16);
    for i in 0..64 {
        block.0[i] = 100 - i as i16;
    }
    let bytes = encode(&block);
    for cut in 0..bytes.len() - 1 {
        let mut reader = BitReader::new(&bytes[..cut]);
        let mut back = Block::new(9i16);
        assert_eq!(back.decode(&mut reader), Err(CodecError::UnexpectedEof));
        assert_eq!(back.0, [9i16; 64]);
    }
}

#[test]
fn decode_refuses_a_coefficient_behind_the_block() {
    let mut writer = BitWriter::new(Vec::new());
    // First coefficient 0; three zero runs lead to position 49; a run of
    // fifteen more leads to position 64, which is none.
    write_symbol(&mut writer, 0x00);
    write_symbol(&mut writer, 0xF0);
    write_symbol(&mut writer, 0xF0);
    write_symbol(&mut writer, 0xF0);
    write_symbol(&mut writer, 0xF1);
    writer.write_varint(1).unwrap();
    let bytes = writer.finish();
    let mut reader = BitReader::new(&bytes);
    let mut block = Block::new(3i16);
    assert_eq!(block.decode(&mut reader), Err(CodecError::CoefficientOverrun));
    assert_eq!(block.0, [3i16; 64]);
}

#[test]
fn decode_takes_zero_runs_past_the_end() {
    let mut writer = BitWriter::new(Vec::new());
    write_symbol(&mut writer, 0x01);
    writer.write_varint(-1).unwrap();
    for _ in 0..4 {
        write_symbol(&mut writer, 0xF0);
    }
    writer.write_bit(1);
    let bytes = writer.finish();
    let mut reader = BitReader::new(&bytes);
    let mut block = Block::new(3i16);
    assert_eq!(block.decode(&mut reader), Ok(()));
    let mut expect = [0i16; 64];
    expect[0] = -1;
    assert_eq!(block.0, expect);
    assert_eq!(reader.read_bit(), Ok(1));
}

#[test]
fn dequantization_multiplies() {
    let mut block = Block::new(0i16);
    block.0[0] = -1023;
    block.0[1] = 3;
    block.0[63] = 1023;
    let product = block.dequantization(&QMATRIX_LUMA);
    assert_eq!(product.0[0], -1023 * 16);
    assert_eq!(product.0[1], 33);
    assert_eq!(product.0[2], 0);
    assert_eq!(product.0[63], 1023 * 99);
    let full = Block::new(i16::MIN).dequantization(&[255u8; 64]);
    assert_eq!(full.0[7], -32768 * 255);
}

#[test]
fn matrices_write_and_read() {
    let base = QMatrices::base();
    assert_eq!(base.luma[0], 16);
    assert_eq!(base.luma[63], 99);
    assert_eq!(base.chroma[0], 17);
    assert_eq!(base.chroma[63], 99);
    assert_eq!(base.chroma, QMATRIX_CHROMA);
    assert!(base.is_positive());
    let mut out = vec![9u8];
    base.write(&mut out);
    assert_eq!(out.len(), 129);
    assert_eq!(&out[1..65], &QMATRIX_LUMA[..]);
    assert_eq!(&out[65..129], &QMATRIX_CHROMA[..]);
    let back = QMatrices::read(&out[1..]).unwrap();
    assert_eq!(back.luma, base.luma);
    assert_eq!(back.chroma, base.chroma);
    assert_eq!(QMatrices::read(&out[2..]).err(), Some(CodecError::UnexpectedEof));
    let mut zero = base;
    zero.chroma[5] = 0;
    assert!(!zero.is_positive());
}

#[test]
fn plane_and_frame_copies_are_equal() {
    let mut plane = Plane::new(8, 8, 1u8);
    plane.put(7, 7, 9);
    let copy = plane.clone();
    assert_eq!(copy.data, plane.data);
    assert_eq!((copy.width(), copy.height()), (8, 8));
    let mut frame = VideoFrame::new(20, 10, 0i32);
    frame.u_plane.put(3, 3, -5);
    let copy = frame.clone();
    assert_eq!(copy.u_plane.data, frame.u_plane.data);
    assert_eq!((copy.width, copy.height, copy.source_width, copy.source_height), (32, 16, 20, 10));
    let map =
        MotionMap { vectors: vec![BlockType::Motion(1, 2), BlockType::New], width: 2, height: 1 };
    let copy = map.clone();
    assert_eq!(copy.vectors, map.vectors);
    assert_eq!((copy.width, copy.height), (2, 1));
}
