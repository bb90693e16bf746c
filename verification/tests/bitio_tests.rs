use nrvc::bitio::{BitReader, BitWriter};
use nrvc::blocks::Block;
use nrvc::error::{CodecError, ErrorKind};

fn bits_to_bytes(bits: &[u8]) -> Vec<u8> {
    let mut writer = BitWriter::new(Vec::new());
    for bit in bits {
        writer.write_bit(*bit);
    }
    writer.finish()
}

fn varint_bytes(value: i16) -> Vec<u8> {
    let mut writer = BitWriter::new(Vec::new());
    writer.write_varint(value).unwrap();
    writer.finish()
}

#[test]
fn bits_fill_bytes_from_the_least_significant() {
    assert_eq!(bits_to_bytes(&[1, 0, 1, 1, 0, 0, 0, 1]), vec![0x8D]);
    assert_eq!(bits_to_bytes(&[1, 1, 1, 1, 1, 1, 1, 1, 1]), vec![0xFF, 0x01]);
}

#[test]
fn any_positive_value_writes_a_one_bit() {
    assert_eq!(bits_to_bytes(&[7, 0, 255]), vec![0b101]);
}

#[test]
fn flush_pads_the_last_byte_with_zeros() {
    let mut writer = BitWriter::new(Vec::new());
    writer.write_bit(1);
    writer.write_bit(1);
    writer.write_bit(1);
    writer.flush();
    writer.write_bit(1);
    assert_eq!(writer.finish(), vec![0x07, 0x01]);
}

#[test]
fn flush_at_a_byte_boundary_writes_nothing() {
    let mut writer = BitWriter::new(Vec::new());
    writer.flush();
    for _ in 0..8 {
        writer.write_bit(1);
    }
    writer.flush();
    writer.flush();
    assert_eq!(writer.finish(), vec![0xFF]);
}

#[test]
fn writer_appends_to_its_sink() {
    let mut writer = BitWriter::new(vec![0xAA, 0xBB]);
    writer.write_bit(1);
    assert_eq!(writer.finish(), vec![0xAA, 0xBB, 0x01]);
}

#[test]
fn write_vec_stops_at_the_first_negative_entry() {
    let mut writer = BitWriter::new(Vec::new());
    writer.write_vec(&[1, 0, 1, 1, -1, 1, 1, 1]);
    assert_eq!(writer.finish(), vec![0b1101]);
    let mut writer = BitWriter::new(Vec::new());
    writer.write_vec(&[-1, 1, 1]);
    assert_eq!(writer.finish(), Vec::<u8>::new());
    let mut writer = BitWriter::new(Vec::new());
    writer.write_vec(&[1, 1, 0, 1]);
    assert_eq!(writer.finish(), vec![0b1011]);
}

#[test]
fn read_bit_gives_the_bits_in_order_and_then_fails() {
    let data = [0x8Du8];
    let mut reader = BitReader::new(&data);
    let mut bits = Vec::new();
    for _ in 0..8 {
        bits.push(reader.read_bit().unwrap());
    }
    assert_eq!(bits, vec![1, 0, 1, 1, 0, 0, 0, 1]);
    assert_eq!(reader.read_bit(), Err(CodecError::UnexpectedEof));
    assert_eq!(reader.read_bit(), Err(CodecError::UnexpectedEof));
}

#[test]
fn read_bit_on_empty_input_fails() {
    let data: [u8; 0] = [];
    let mut reader = BitReader::new(&data);
    assert_eq!(reader.read_bit(), Err(CodecError::UnexpectedEof));
}

#[test]
fn varint_code_of_small_values() {
    // 5 has width 3: sign 0, then 5 - 4 = 1 in two bits: 0 0 1.
    assert_eq!(varint_bytes(5), vec![0b100]);
    // -5 has width 3: sign 1, then 5 - 4 = 1 inverted in two bits: 1 1 0.
    assert_eq!(varint_bytes(-5), vec![0b011]);
    // 1 and -1 have width 1: the sign alone.
    assert_eq!(varint_bytes(1), vec![0b0]);
    assert_eq!(varint_bytes(-1), vec![0b1]);
    // 0 has width 0: nothing.
    assert_eq!(varint_bytes(0), Vec::<u8>::new());
    // 1023 has width 10: sign 0, then 511 in nine bits.
    assert_eq!(varint_bytes(1023), vec![0b1111_1110, 0b11]);
    // -1023 has width 10: sign 1, then nine zeros.
    assert_eq!(varint_bytes(-1023), vec![0b0000_0001, 0b00]);
}

#[test]
fn varint_round_trip_of_every_value() {
    for value in -2047i16..=2047 {
        let width = Block::<i16>::int_width(value);
        let mut writer = BitWriter::new(Vec::new());
        writer.write_varint(value).unwrap();
        // A marker bit right behind the code shows how long the code is.
        writer.write_bit(1);
        let bytes = writer.finish();
        assert_eq!(bytes.len(), (width + 1 + 7) / 8, "length of the code of {}", value);
        let mut reader = BitReader::new(&bytes);
        assert_eq!(reader.read_varint(width as u8), Ok(value));
        assert_eq!(reader.read_bit(), Ok(1), "marker behind the code of {}", value);
    }
}

#[test]
fn varint_boundary() {
    for value in [-1024i16, -1023, -512, -1, 0, 1, 511, 512, 1023] {
        let width = Block::<i16>::int_width(value) as u8;
        let bytes = varint_bytes(value);
        let mut reader = BitReader::new(&bytes);
        assert_eq!(reader.read_varint(width), Ok(value));
    }
    // A block does not take what lies outside ±1023.
    for value in [-1024i16, 1024, 2047, -2047, i16::MAX, i16::MIN] {
        let mut block = Block::new(0i16);
        block.0[5] = value;
        let mut writer = BitWriter::new(Vec::new());
        assert_eq!(block.encode(&mut writer), Err(CodecError::CoefficientRange));
        assert_eq!(writer.finish(), Vec::<u8>::new());
    }
}

#[test]
fn varint_outside_eleven_bits_is_refused() {
    for value in [2048i16, -2048, i16::MAX, i16::MIN] {
        let mut writer = BitWriter::new(Vec::new());
        writer.write_bit(1);
        assert_eq!(writer.write_varint(value), Err(CodecError::ValueRange));
        assert_eq!(writer.finish(), vec![0x01]);
    }
    let mut writer = BitWriter::new(Vec::new());
    assert_eq!(writer.write_varint(2047), Ok(()));
    assert_eq!(writer.write_varint(-2047), Ok(()));
}

#[test]
fn read_varint_of_width_zero_reads_nothing() {
    let data = [0xFFu8];
    let mut reader = BitReader::new(&data);
    assert_eq!(reader.read_varint(0), Ok(0));
    assert_eq!(reader.read_varint(1), Ok(-1));
}

#[test]
fn read_varint_refuses_wide_values() {
    let data = [0xFFu8, 0xFF, 0xFF];
    let mut reader = BitReader::new(&data);
    assert_eq!(reader.read_varint(12), Err(CodecError::WidthTooBig));
    assert_eq!(reader.read_varint(255), Err(CodecError::WidthTooBig));
    // Nothing was taken.
    assert_eq!(reader.read_varint(11), Ok(-1024));
}

#[test]
fn read_varint_fails_when_the_bits_run_out() {
    let data = [0xFFu8];
    let mut reader = BitReader::new(&data);
    assert_eq!(reader.read_varint(9), Err(CodecError::UnexpectedEof));
    assert_eq!(reader.read_bit(), Err(CodecError::UnexpectedEof));
}

#[test]
fn decode_huffman_walks_the_table() {
    // 0 -> symbol 7; 10 -> symbol 3; 11 -> symbol 0.
    let table: [[i16; 2]; 2] = [[-7, 1], [-3, 0]];
    let data = bits_to_bytes(&[1, 0, 0, 1, 1]);
    let mut reader = BitReader::new(&data);
    assert_eq!(reader.decode_huffman(&table), Ok(3));
    assert_eq!(reader.decode_huffman(&table), Ok(7));
    assert_eq!(reader.decode_huffman(&table), Ok(0));
    assert_eq!(reader.decode_huffman(&table), Ok(7));
}

#[test]
fn decode_huffman_fails_inside_a_code() {
    let table: [[i16; 2]; 2] = [[1, 1], [-3, -4]];
    let data = [0x00u8];
    let mut reader = BitReader::new(&data);
    for _ in 0..4 {
        assert_eq!(reader.decode_huffman(&table), Ok(3));
    }
    assert_eq!(reader.decode_huffman(&table), Err(CodecError::UnexpectedEof));
    let empty: [u8; 0] = [];
    let mut reader = BitReader::new(&empty);
    assert_eq!(reader.decode_huffman(&table), Err(CodecError::UnexpectedEof));
}

#[test]
fn errors_tell_their_kind() {
    let format = [
        CodecError::UnexpectedEof,
        CodecError::WidthTooBig,
        CodecError::CoefficientOverrun,
        CodecError::BadRepeat,
        CodecError::BadMagic,
        CodecError::UnknownFrameType,
        CodecError::LengthOverrun,
        CodecError::PredictorOutside,
    ];
    for error in format {
        assert_eq!(error.kind(), ErrorKind::Format);
        assert!(!error.message().is_empty());
    }
    let range = [
        CodecError::ValueRange,
        CodecError::CoefficientRange,
        CodecError::VectorRange,
        CodecError::RecordTooLarge,
    ];
    for error in range {
        assert_eq!(error.kind(), ErrorKind::Range);
        assert!(!error.message().is_empty());
    }
}

#[test]
fn errors_describe_themselves() {
    assert_eq!(CodecError::UnexpectedEof.message(), "unexpected end of input");
    assert_eq!(CodecError::WidthTooBig.message(), "integer width is too big");
    assert_eq!(CodecError::BadMagic.message(), "not an NRVC version 1 stream");
    assert_eq!(CodecError::UnknownFrameType.message(), "unknown frame type");
    assert_eq!(
        CodecError::LengthOverrun.message(),
        "length prefix exceeds the remaining input"
    );
    assert_eq!(CodecError::VectorRange.message(), "motion vector outside the search window");
}
