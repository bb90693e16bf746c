use nrvc::bitio::{BitReader, BitWriter};
use nrvc::blocks::Block;
use nrvc::container::{
    walk_records, FrameRecord, Header, Section, StreamStart, HEADER_LEN, MAGIC,
};
use nrvc::decoder::decode_frame;
use nrvc::error::CodecError;
use nrvc::motion::{BlockType, MotionMap};
use nrvc::planes::Plane;
use nrvc::quant::QMatrices;
use nrvc::videocode::{read_macroblocks, Encoder, FrameType, MacroBlock, VideoFrame};

fn numbered_plane(width: u32, height: u32) -> Plane<u32> {
    let mut plane = Plane::new(width, height, 0u32);
    for y in 0..height {
        for x in 0..width {
            plane.put(x, y, 1000 * y + x);
        }
    }
    plane
}

fn busy_macroblock(seed: i16) -> MacroBlock<i16> {
    let mut mb = MacroBlock::new(0i16);
    for k in 0..6 {
        for i in 0..64 {
            let value = (seed as i32 * 31 + k as i32 * 97 + i as i32 * 13) % 41 - 20;
            mb.0[k].0[i] = if i % 3 == 0 { value as i16 } else { 0 };
        }
        mb.0[k].0[0] = seed.wrapping_mul(7) % 1024;
    }
    mb
}

fn section_of(data: &[u8], section: Section) -> &[u8] {
    &data[section.start..section.start + section.len]
}

#[test]
fn planes_hold_samples_row_by_row() {
    let mut plane = Plane::new(16, 8, 7u8);
    assert_eq!((plane.width(), plane.height()), (16, 8));
    assert_eq!(plane.data, vec![7u8; 128]);
    plane.put(3, 2, 9);
    assert_eq!(plane.get(3, 2), 9);
    assert_eq!(plane.data[3 + 2 * 16], 9);
    assert_eq!(plane.get(2, 3), 7);
    plane.fill(1);
    assert_eq!(plane.data, vec![1u8; 128]);
    let empty = Plane::new(0, 5, 0u8);
    assert!(empty.data.is_empty());
}

#[test]
fn blocks_are_copied_out_and_in() {
    let plane = numbered_plane(24, 16);
    let mut block = Block::new(0u32);
    plane.extract_block(8, 0, &mut block);
    assert_eq!(block.0[0], 8);
    assert_eq!(block.0[7], 15);
    assert_eq!(block.0[8], 1008);
    assert_eq!(block.0[63], 7015);
    plane.extract_block(3, 5, &mut block);
    assert_eq!(block.0[0], 5003);
    assert_eq!(block.0[9], 6004);
    plane.extract_block(16, 8, &mut block);
    assert_eq!(block.0[63], 15023);
    let mut target = Plane::new(24, 16, 0u32);
    target.apply_block(16, 8, &block);
    target.apply_block(1, 2, &block);
    for y in 0..16 {
        for x in 0..24 {
            let expect = if x >= 16 && y >= 8 {
                1000 * y + x
            } else if (1..9).contains(&x) && (2..10).contains(&y) {
                1000 * (y + 6) + x + 15
            } else {
                0
            };
            assert_eq!(target.get(x, y), expect, "at {} {}", x, y);
        }
    }
}

#[test]
fn frames_are_rounded_up_to_whole_macroblocks() {
    let frame = VideoFrame::new(17, 33, 0u8);
    assert_eq!((frame.source_width, frame.source_height), (17, 33));
    assert_eq!((frame.width, frame.height), (32, 48));
    assert_eq!((frame.y_plane.width(), frame.y_plane.height()), (32, 48));
    assert_eq!((frame.u_plane.width(), frame.u_plane.height()), (16, 24));
    assert_eq!((frame.v_plane.width(), frame.v_plane.height()), (16, 24));
    assert_eq!(frame.y_plane.data.len(), 32 * 48);
    let exact = VideoFrame::new(16, 32, 0u8);
    assert_eq!((exact.width, exact.height), (16, 32));
    let none = VideoFrame::new(0, 0, 0u8);
    assert_eq!((none.width, none.height), (0, 0));
}

#[test]
fn macroblocks_are_copied_out_and_in() {
    let mut frame = VideoFrame::new(32, 32, 0u32);
    frame.y_plane = numbered_plane(32, 32);
    frame.u_plane = numbered_plane(16, 16);
    frame.v_plane = numbered_plane(16, 16);
    for value in frame.v_plane.data.iter_mut() {
        *value += 500_000;
    }
    let mut mb = MacroBlock::new(0u32);
    frame.extract_macroblock(16, 0, &mut mb);
    assert_eq!(mb.0[0].0[0], 16);
    assert_eq!(mb.0[1].0[0], 24);
    assert_eq!(mb.0[2].0[0], 8016);
    assert_eq!(mb.0[3].0[0], 8024);
    assert_eq!(mb.0[3].0[63], 15031);
    assert_eq!(mb.0[4].0[0], 8);
    assert_eq!(mb.0[5].0[0], 500_008);
    // A predictor may start at any pixel; its chroma starts at half of it.
    frame.extract_macroblock(5, 7, &mut mb);
    assert_eq!(mb.0[0].0[0], 7005);
    assert_eq!(mb.0[3].0[0], 15013);
    assert_eq!(mb.0[4].0[0], 3002);
    let mut target = VideoFrame::new(32, 32, 0u32);
    frame.extract_macroblock(16, 16, &mut mb);
    target.apply_macroblock(0, 16, &mb);
    let mut back = MacroBlock::new(1u32);
    target.extract_macroblock(0, 16, &mut back);
    for k in 0..6 {
        assert_eq!(back.0[k].0, mb.0[k].0);
    }
    assert_eq!(target.y_plane.get(0, 15), 0);
    assert_eq!(target.y_plane.get(16, 16), 0);
    assert_eq!(target.y_plane.get(15, 31), 31031);
    assert_eq!(target.u_plane.get(7, 15), 15015);
    assert_eq!(target.u_plane.get(8, 15), 0);
}

#[test]
fn macroblocks_read_back() {
    let mb = busy_macroblock(5);
    assert!(mb.in_range());
    let size = mb.get_encoded_size().unwrap();
    let mut parts = 0;
    for k in 0..6 {
        parts += mb.0[k].get_encoded_size().unwrap();
    }
    assert_eq!(size, parts);
    let mut writer = BitWriter::new(Vec::new());
    assert_eq!(mb.write(&mut writer), Ok(()));
    writer.write_bit(1);
    let bytes = writer.finish();
    assert_eq!(bytes.len(), (size + 1 + 7) / 8);
    let mut reader = BitReader::new(&bytes);
    let mut back = MacroBlock::new(0i16);
    assert_eq!(back.read(&mut reader), Ok(()));
    for k in 0..6 {
        assert_eq!(back.0[k].0, mb.0[k].0);
    }
    assert_eq!(reader.read_bit(), Ok(1));
    let mut short = BitReader::new(&bytes[..bytes.len() / 2]);
    let mut kept = MacroBlock::new(4i16);
    assert_eq!(kept.read(&mut short), Err(CodecError::UnexpectedEof));
    assert_eq!(kept.0[0].0, [4i16; 64]);
}

#[test]
fn a_macroblock_out_of_range_is_not_written() {
    let mut mb = busy_macroblock(1);
    mb.0[5].0[63] = 1024;
    assert!(!mb.in_range());
    assert_eq!(mb.get_encoded_size(), Err(CodecError::CoefficientRange));
    let mut writer = BitWriter::new(Vec::new());
    assert_eq!(mb.write(&mut writer), Err(CodecError::CoefficientRange));
    assert_eq!(writer.finish(), Vec::<u8>::new());
}

#[test]
fn the_record_of_an_empty_i_frame() {
    let mut encoder = Encoder::new();
    let mut file = vec![0xAAu8];
    assert_eq!(encoder.encode_i_frame(&[], &mut file), Ok(5));
    assert_eq!(file, vec![0xAA, 5, 0, 0, 0, 0, 0, 0, 0, 0]);
}

#[test]
fn the_record_of_a_flat_i_frame() {
    let mut encoder = Encoder::new();
    let mut file = Vec::new();
    let blocks = vec![MacroBlock::new(0i16); 2];
    // Each block of zeros takes eight bits, 0x55.
    assert_eq!(encoder.encode_i_frame(&blocks, &mut file), Ok(17));
    let mut expect = vec![17u8, 0, 0, 0, 0, 12, 0, 0, 0];
    expect.extend_from_slice(&[0x55; 12]);
    assert_eq!(file, expect);
    // The encoder starts the next frame with empty buffers.
    assert_eq!(encoder.encode_i_frame(&blocks[..1], &mut file), Ok(11));
    assert_eq!(file.len(), 21 + 15);
    assert_eq!(&file[21..30], &[11, 0, 0, 0, 0, 6, 0, 0, 0]);
}

#[test]
fn records_are_found_where_they_were_written() {
    let blocks: Vec<MacroBlock<i16>> = (0..6).map(busy_macroblock).collect();
    let prev = MotionMap {
        vectors: vec![
            BlockType::Motion(0, 0),
            BlockType::Motion(0, 0),
            BlockType::Motion(0, 0),
            BlockType::New,
            BlockType::Motion(-7, 7),
            BlockType::Motion(-7, 7),
        ],
        width: 3,
        height: 2,
    };
    let next = MotionMap { vectors: vec![BlockType::New; 6], width: 3, height: 2 };
    let mut encoder = Encoder::new();
    let mut file = vec![1u8, 2, 3];
    let first = file.len();
    let size_i = encoder.encode_i_frame(&blocks, &mut file).unwrap() as usize;
    let second = file.len();
    let size_p = encoder.encode_p_frame(&blocks[..3], &prev, &mut file).unwrap() as usize;
    let third = file.len();
    let size_b = encoder.encode_b_frame(&blocks[2..], &prev, &next, &mut file).unwrap() as usize;
    let end = file.len();
    file.extend_from_slice(&[9, 9]);
    assert_eq!(second, first + 4 + size_i);
    assert_eq!(third, second + 4 + size_p);
    assert_eq!(end, third + 4 + size_b);

    let record = FrameRecord::read(&file, first).unwrap();
    assert_eq!(record.frame_type, FrameType::IFrame);
    assert_eq!(record.next, second);
    assert_eq!(record.mprev.len, 0);
    assert_eq!(record.mnext.len, 0);
    assert_eq!(record.dct.start + record.dct.len, second);
    let decoded = read_macroblocks(section_of(&file, record.dct), 6).unwrap();
    for (mb, back) in blocks.iter().zip(decoded.iter()) {
        for k in 0..6 {
            assert_eq!(mb.0[k].0, back.0[k].0);
        }
    }

    let record = FrameRecord::read(&file, record.next).unwrap();
    assert_eq!(record.frame_type, FrameType::PFrame);
    assert_eq!(record.next, third);
    assert_eq!(section_of(&file, record.mprev), &[0x77, 0xF0, 0xFF, 0x0E, 0x0E]);
    assert_eq!(record.mnext.len, 0);
    let mut map = MotionMap { vectors: vec![BlockType::New; 6], width: 3, height: 2 };
    assert_eq!(map.read(section_of(&file, record.mprev)), Ok(5));
    assert_eq!(map.vectors, prev.vectors);
    assert_eq!(read_macroblocks(section_of(&file, record.dct), 3).unwrap().len(), 3);
    assert_eq!(
        read_macroblocks(section_of(&file, record.dct), 4).err(),
        Some(CodecError::UnexpectedEof)
    );

    let record = FrameRecord::read(&file, record.next).unwrap();
    assert_eq!(record.frame_type, FrameType::BFrame);
    assert_eq!(record.next, end);
    assert_eq!(section_of(&file, record.mprev), &[0x77, 0xF0, 0xFF, 0x0E, 0x0E]);
    assert_eq!(section_of(&file, record.mnext), &[0xFF, 0xF3]);
    let decoded = read_macroblocks(section_of(&file, record.dct), 4).unwrap();
    assert_eq!(decoded[3].0[2].0, blocks[5].0[2].0);

    assert_eq!(FrameRecord::read(&file, end).err(), Some(CodecError::UnexpectedEof));
}

#[test]
fn frames_that_cannot_be_coded_leave_the_file_alone() {
    let mut encoder = Encoder::new();
    let mut file = vec![7u8];
    let mut blocks = vec![busy_macroblock(3); 3];
    blocks[2].0[4].0[9] = -1024;
    let good = MotionMap { vectors: vec![BlockType::Motion(1, 1); 3], width: 3, height: 1 };
    let bad = MotionMap { vectors: vec![BlockType::Motion(8, 1); 3], width: 3, height: 1 };
    assert_eq!(encoder.encode_i_frame(&blocks, &mut file), Err(CodecError::CoefficientRange));
    assert_eq!(
        encoder.encode_p_frame(&blocks, &good, &mut file),
        Err(CodecError::CoefficientRange)
    );
    assert_eq!(encoder.encode_p_frame(&blocks, &bad, &mut file), Err(CodecError::VectorRange));
    assert_eq!(
        encoder.encode_b_frame(&blocks[..2], &good, &bad, &mut file),
        Err(CodecError::VectorRange)
    );
    assert_eq!(
        encoder.encode_b_frame(&blocks[..2], &bad, &good, &mut file),
        Err(CodecError::VectorRange)
    );
    assert_eq!(file, vec![7u8]);
    // The encoder is as good as new.
    assert_eq!(encoder.encode_b_frame(&blocks[..2], &good, &good, &mut file).is_ok(), true);
    let record = FrameRecord::read(&file, 1).unwrap();
    assert_eq!(section_of(&file, record.mprev), &[0x88, 0xF0]);
    assert_eq!(section_of(&file, record.mnext), &[0x88, 0xF0]);
}

#[test]
fn records_that_are_none() {
    // The stream ends inside the length.
    assert_eq!(FrameRecord::read(&[5, 0, 0], 0).err(), Some(CodecError::UnexpectedEof));
    assert_eq!(FrameRecord::read(&[5, 0, 0, 0], 9).err(), Some(CodecError::UnexpectedEof));
    // The length reaches beyond the stream.
    assert_eq!(
        FrameRecord::read(&[6, 0, 0, 0, 0, 0, 0, 0, 0], 0).err(),
        Some(CodecError::LengthOverrun)
    );
    assert_eq!(
        FrameRecord::read(&[0xFF, 0xFF, 0xFF, 0xFF, 0], 0).err(),
        Some(CodecError::LengthOverrun)
    );
    // There is no room for the type.
    assert_eq!(FrameRecord::read(&[0, 0, 0, 0, 0], 0).err(), Some(CodecError::UnexpectedEof));
    // The type is unknown.
    assert_eq!(
        FrameRecord::read(&[5, 0, 0, 0, 3, 0, 0, 0, 0], 0).err(),
        Some(CodecError::UnknownFrameType)
    );
    // A section has no room for its length.
    assert_eq!(
        FrameRecord::read(&[4, 0, 0, 0, 0, 0, 0, 0], 0).err(),
        Some(CodecError::UnexpectedEof)
    );
    assert_eq!(
        FrameRecord::read(&[5, 0, 0, 0, 1, 0, 0, 0, 0], 0).err(),
        Some(CodecError::UnexpectedEof)
    );
    // A section reaches beyond its record.
    assert_eq!(
        FrameRecord::read(&[5, 0, 0, 0, 0, 1, 0, 0, 0, 0xAA], 0).err(),
        Some(CodecError::LengthOverrun)
    );
    // Bytes behind the last section are passed over.
    let padded = [8u8, 0, 0, 0, 0, 1, 0, 0, 0, 0xAA, 0xBB, 0xCC, 0xDD];
    let record = FrameRecord::read(&padded, 0).unwrap();
    assert_eq!(record.dct, Section { start: 9, len: 1 });
    assert_eq!(record.next, 12);
}

#[test]
fn the_header_takes_twenty_one_bytes() {
    let header = Header {
        width: 0x0140,
        height: 0x00F0,
        fps_bits: 25.0f32.to_bits(),
        frame_count: 0x0102_0304,
        metadata_len: 3,
    };
    let mut out = Vec::new();
    header.write(&mut out);
    assert_eq!(
        out,
        vec![
            b'N', b'R', b'V', b'C', 1, 0x40, 0x01, 0xF0, 0x00, 0x00, 0x00, 0xC8, 0x41, 0x04,
            0x03, 0x02, 0x01, 3, 0, 0, 0
        ]
    );
    assert_eq!(out.len(), HEADER_LEN);
    assert_eq!(&out[..5], &MAGIC[..]);
    assert_eq!(Header::read(&out), Ok(header));
    out.extend_from_slice(&[1, 2, 3]);
    assert_eq!(Header::read(&out), Ok(header));
    assert_eq!(f32::from_bits(Header::read(&out).unwrap().fps_bits), 25.0);
}

#[test]
fn headers_that_are_none() {
    let header =
        Header { width: 1, height: 2, fps_bits: 3, frame_count: 4, metadata_len: 0 };
    let mut good = Vec::new();
    header.write(&mut good);
    for cut in 0..HEADER_LEN {
        assert_eq!(Header::read(&good[..cut]), Err(CodecError::UnexpectedEof));
    }
    for place in 0..5 {
        let mut bad = good.clone();
        bad[place] ^= 0x20;
        assert_eq!(Header::read(&bad), Err(CodecError::BadMagic));
        assert_eq!(Header::read(&bad[..5]), Err(CodecError::BadMagic));
    }
    assert_eq!(Header::read(b"NRVC\x02 and more than enough"), Err(CodecError::BadMagic));
}

#[test]
fn the_start_of_a_stream() {
    let header =
        Header { width: 64, height: 48, fps_bits: 0, frame_count: 2, metadata_len: 4 };
    let base = QMatrices::base();
    let mut other = base;
    other.luma[0] = 1;
    other.chroma[63] = 255;
    let mut stream = Vec::new();
    StreamStart::write(&header, &[9, 8, 7, 6], &base, &other, &mut stream);
    assert_eq!(stream.len(), 21 + 4 + 256);
    assert_eq!(&stream[21..25], &[9, 8, 7, 6]);
    let mut encoder = Encoder::new();
    encoder.encode_i_frame(&[MacroBlock::new(0i16)], &mut stream).unwrap();
    let start = StreamStart::read(&stream).unwrap();
    assert_eq!(start.header, header);
    assert_eq!(start.frames_start, 281);
    assert_eq!(start.i_matrices.luma, base.luma);
    assert_eq!(start.i_matrices.chroma, base.chroma);
    assert_eq!(start.pb_matrices.luma, other.luma);
    assert_eq!(start.pb_matrices.chroma, other.chroma);
    let record = FrameRecord::read(&stream, start.frames_start).unwrap();
    assert_eq!(record.next, stream.len());

    assert_eq!(StreamStart::read(&stream[..280]).err(), Some(CodecError::UnexpectedEof));
    assert_eq!(StreamStart::read(&stream[..24]).err(), Some(CodecError::LengthOverrun));
    assert_eq!(StreamStart::read(&stream[..20]).err(), Some(CodecError::UnexpectedEof));
    stream[0] = b'n';
    assert_eq!(StreamStart::read(&stream).err(), Some(CodecError::BadMagic));
}

#[test]
fn the_walk_through_a_stream_ends_where_the_stream_ends() {
    let plan = nrvc::schedule::schedule(14, true);
    let mut encoder = Encoder::new();
    let mut stream = Vec::new();
    let mut starts = Vec::new();
    for step in &plan {
        starts.push(stream.len());
        let blocks = vec![busy_macroblock(step.index as i16); 1 + step.index % 3];
        encoder.encode_i_frame(&blocks, &mut stream).unwrap();
    }
    let mut at = 0;
    for (j, start) in starts.iter().enumerate() {
        assert_eq!(at, *start);
        let record = FrameRecord::read(&stream, at).unwrap();
        assert_eq!(record.frame_type.code(), 0);
        let size = u32::from_le_bytes([stream[at], stream[at + 1], stream[at + 2], stream[at + 3]]);
        assert_eq!(record.next, at + 4 + size as usize);
        let blocks = read_macroblocks(section_of(&stream, record.dct), 1 + j % 3).unwrap();
        assert_eq!(blocks[0].0[0].0, busy_macroblock(j as i16).0[0].0);
        at = record.next;
    }
    assert_eq!(at, stream.len());
}

#[test]
fn frames_decode_to_what_was_coded() {
    let blocks: Vec<MacroBlock<i16>> = (0..6).map(|seed| busy_macroblock(seed + 40)).collect();
    let prev = MotionMap {
        vectors: vec![
            BlockType::Motion(1, -1),
            BlockType::New,
            BlockType::New,
            BlockType::New,
            BlockType::New,
            BlockType::Motion(7, 7),
        ],
        width: 3,
        height: 2,
    };
    let next = MotionMap { vectors: vec![BlockType::Motion(0, 0); 6], width: 3, height: 2 };
    let mut encoder = Encoder::new();
    let mut stream = vec![0u8; 5];
    encoder.encode_i_frame(&blocks, &mut stream).unwrap();
    encoder.encode_p_frame(&blocks, &prev, &mut stream).unwrap();
    encoder.encode_b_frame(&blocks, &prev, &next, &mut stream).unwrap();
    stream.push(0);

    let records = walk_records(&stream, 5, 3).unwrap();
    assert_eq!(records.len(), 3);
    assert_eq!(records[2].next, stream.len() - 1);
    assert_eq!(walk_records(&stream, 5, 4).err(), Some(CodecError::UnexpectedEof));
    assert_eq!(walk_records(&stream, 5, 0).unwrap().len(), 0);

    let same = |decoded: &Vec<MacroBlock<i16>>| {
        assert_eq!(decoded.len(), 6);
        for (mb, back) in blocks.iter().zip(decoded.iter()) {
            for k in 0..6 {
                assert_eq!(mb.0[k].0, back.0[k].0);
            }
        }
    };
    let frame = decode_frame(&stream, 5, 3, 2).unwrap();
    assert_eq!(frame.frame_type, FrameType::IFrame);
    assert_eq!(frame.next, records[0].next);
    assert_eq!(frame.motion_prev.vectors, vec![BlockType::New; 6]);
    assert_eq!(frame.motion_next.vectors, vec![BlockType::New; 6]);
    same(&frame.blocks);
    let frame = decode_frame(&stream, frame.next, 3, 2).unwrap();
    assert_eq!(frame.frame_type, FrameType::PFrame);
    assert_eq!(frame.motion_prev.vectors, prev.vectors);
    assert_eq!((frame.motion_prev.width, frame.motion_prev.height), (3, 2));
    assert_eq!(frame.motion_next.vectors, vec![BlockType::New; 6]);
    same(&frame.blocks);
    let frame = decode_frame(&stream, frame.next, 3, 2).unwrap();
    assert_eq!(frame.frame_type, FrameType::BFrame);
    assert_eq!(frame.motion_prev.vectors, prev.vectors);
    assert_eq!(frame.motion_next.vectors, next.vectors);
    same(&frame.blocks);
    assert_eq!(frame.next, stream.len() - 1);

    // A picture of another size does not fit the record.
    assert_eq!(decode_frame(&stream, 5, 3, 3).err(), Some(CodecError::UnexpectedEof));
    assert_eq!(
        decode_frame(&stream, records[1].next, 4, 2).err(),
        Some(CodecError::UnexpectedEof)
    );
    assert_eq!(
        decode_frame(&stream, stream.len() - 1, 3, 2).err(),
        Some(CodecError::UnexpectedEof)
    );
}

#[test]
fn a_flat_picture_codes_to_zeros_and_back() {
    // A picture of one grey, centred on zero, has no coefficient but zeros.
    let blocks = vec![MacroBlock::new(0i16)];
    let mut encoder = Encoder::new();
    let mut stream = Vec::new();
    assert_eq!(encoder.encode_i_frame(&blocks, &mut stream), Ok(11));
    let frame = decode_frame(&stream, 0, 1, 1).unwrap();
    assert_eq!(frame.frame_type, FrameType::IFrame);
    let matrices = QMatrices::base();
    for k in 0..6 {
        let matrix = if k < 4 { &matrices.luma } else { &matrices.chroma };
        let mut rows = Block::new(1i16);
        frame.blocks[0].0[k].wrap(&mut rows);
        assert_eq!(rows.dequantization(matrix).0, [0i32; 64]);
    }
}

#[test]
fn frames_that_repeat_the_support_are_small() {
    // Eight equal frames: the first is coded by itself, the others have
    // every macroblock predicted in place and nothing left to code.
    let picture: Vec<MacroBlock<i16>> = (0..4).map(|seed| busy_macroblock(seed + 9)).collect();
    let nothing = vec![MacroBlock::new(0i16); 4];
    let still = MotionMap { vectors: vec![BlockType::Motion(0, 0); 4], width: 2, height: 2 };
    let mut encoder = Encoder::new();
    let mut stream = Vec::new();
    let mut sizes = Vec::new();
    for step in nrvc::schedule::schedule(8, false) {
        let size = match step.frame_type {
            FrameType::IFrame => encoder.encode_i_frame(&picture, &mut stream),
            FrameType::PFrame => encoder.encode_p_frame(&nothing, &still, &mut stream),
            FrameType::BFrame => encoder.encode_b_frame(&nothing, &still, &still, &mut stream),
        };
        sizes.push((step.frame_type, size.unwrap()));
    }
    let first = sizes[0].1;
    assert_eq!(sizes[0].0, FrameType::IFrame);
    for (frame_type, size) in &sizes[1..] {
        assert!(*frame_type != FrameType::IFrame);
        assert!(*size < first, "{} against {}", size, first);
    }
    let records = walk_records(&stream, 0, 8).unwrap();
    assert_eq!(records[7].next, stream.len());
    for record in &records[1..] {
        assert_eq!(section_of(&stream, record.mprev), &[0x77, 0xF1]);
    }
}
