use nrvc::error::CodecError;
use nrvc::motion::{
    choose_prediction, classify_fast, classify_ult, predictor_origin, repeat_to_byte,
    search_range, BlockType, Candidate, MapByte, MotionMap, Prediction, NEW_THRESHOLD,
    ZMP_THRESHOLD,
};
use nrvc::planes::Plane;
use nrvc::videocode::VideoFrame;

fn map_of(cells: Vec<BlockType>) -> MotionMap {
    let width = cells.len() as u32;
    MotionMap { vectors: cells, width, height: 1 }
}

fn written(cells: Vec<BlockType>) -> Vec<u8> {
    let mut out = Vec::new();
    map_of(cells).write(&mut out).unwrap();
    out
}

fn read_back(bytes: &[u8], count: usize) -> Result<(Vec<BlockType>, usize), CodecError> {
    let mut map = map_of(vec![BlockType::New; count]);
    let used = map.read(bytes)?;
    Ok((map.vectors, used))
}

#[test]
fn bytes_of_cells_and_repeats() {
    assert_eq!(BlockType::New.to_byte(), 0xFF);
    assert_eq!(BlockType::Motion(0, 0).to_byte(), 0x77);
    assert_eq!(BlockType::Motion(-7, -7).to_byte(), 0x00);
    assert_eq!(BlockType::Motion(7, 7).to_byte(), 0xEE);
    assert_eq!(BlockType::Motion(-4, 0).to_byte(), 0x37);
    assert_eq!(BlockType::Motion(1, -2).to_byte(), 0x85);
    assert_eq!(repeat_to_byte(2), 0xF0);
    assert_eq!(repeat_to_byte(16), 0xFE);
    assert_eq!(repeat_to_byte(17), 0x0F);
    assert_eq!(repeat_to_byte(31), 0xEF);
}

#[test]
fn every_byte_has_one_meaning() {
    let mut cells = 0;
    let mut repeats = vec![0u32; 32];
    for byte in 0..=255u8 {
        match MapByte::from_byte(byte) {
            MapByte::Cell(cell) => {
                assert!(cell.is_valid());
                assert_eq!(cell.to_byte(), byte);
                cells += 1;
            }
            MapByte::Repeat(count) => {
                assert!((2..=31).contains(&count));
                assert_eq!(repeat_to_byte(count), byte);
                repeats[count as usize] += 1;
            }
        }
    }
    assert_eq!(cells, 15 * 15 + 1);
    assert_eq!(&repeats[2..], &[1u32; 30][..]);
    assert_eq!(MapByte::from_byte(0xFF), MapByte::Cell(BlockType::New));
    assert_eq!(MapByte::from_byte(0x37), MapByte::Cell(BlockType::Motion(-4, 0)));
    assert_eq!(MapByte::from_byte(0xF0), MapByte::Repeat(2));
    assert_eq!(MapByte::from_byte(0x0F), MapByte::Repeat(17));
}

#[test]
fn runs_are_written_as_repeats() {
    let zero = BlockType::Motion(0, 0);
    assert_eq!(written(vec![]), Vec::<u8>::new());
    assert_eq!(written(vec![zero]), vec![0x77]);
    assert_eq!(written(vec![zero; 2]), vec![0x77, 0x77]);
    assert_eq!(written(vec![zero; 3]), vec![0x77, 0xF0]);
    assert_eq!(written(vec![zero; 5]), vec![0x77, 0xF2]);
    assert_eq!(written(vec![zero; 17]), vec![0x77, 0xFE]);
    assert_eq!(written(vec![zero; 18]), vec![0x77, 0x0F]);
    assert_eq!(written(vec![zero; 32]), vec![0x77, 0xEF]);
    assert_eq!(written(vec![zero; 33]), vec![0x77, 0xEF, 0x77]);
    assert_eq!(written(vec![zero; 34]), vec![0x77, 0xEF, 0x77, 0x77]);
    assert_eq!(written(vec![zero; 64]), vec![0x77, 0xEF, 0x77, 0xEF]);
    assert_eq!(written(vec![BlockType::New; 4]), vec![0xFF, 0xF1]);
    let mixed = vec![
        BlockType::New,
        zero,
        zero,
        zero,
        BlockType::Motion(7, -7),
        BlockType::Motion(7, -7),
        BlockType::New,
    ];
    assert_eq!(written(mixed), vec![0xFF, 0x77, 0xF0, 0xE0, 0xE0, 0xFF]);
}

#[test]
fn maps_read_back() {
    let mut cells = Vec::new();
    for i in 0..400i32 {
        let cell = match i % 7 {
            0 => BlockType::New,
            1 | 2 => BlockType::Motion(i % 15 - 7, 3),
            _ => BlockType::Motion(-7 + (i / 50), 7 - (i / 40)),
        };
        cells.push(cell);
    }
    let mut bytes = written(cells.clone());
    assert!(bytes.len() <= cells.len());
    let length = bytes.len();
    bytes.extend_from_slice(&[0xF5, 0x12]);
    assert_eq!(read_back(&bytes, cells.len()), Ok((cells, length)));
    for count in 0..100usize {
        let run = vec![BlockType::Motion(-3, 2); count];
        let bytes = written(run.clone());
        assert_eq!(read_back(&bytes, count), Ok((run, bytes.len())));
    }
}

#[test]
fn longer_runs_cost_less_for_each_cell() {
    let mut before = 0;
    for count in 0..200usize {
        let length = written(vec![BlockType::New; count]).len();
        assert_eq!(length, 2 * (count / 32) + (count % 32).min(2));
        assert!(length >= before);
        assert!(length <= count);
        before = length;
    }
    // The same number of cells never takes more bytes in one run than in
    // several.
    let zero = BlockType::Motion(0, 0);
    let one = BlockType::Motion(1, 0);
    for split in 1..40usize {
        let mut cells = vec![zero; split];
        cells.extend(vec![one; 40 - split]);
        assert!(written(cells).len() >= written(vec![zero; 40]).len());
    }
}

#[test]
fn a_map_with_a_long_motion_is_not_written() {
    for cell in [
        BlockType::Motion(8, 0),
        BlockType::Motion(0, 8),
        BlockType::Motion(-8, 0),
        BlockType::Motion(0, -8),
        BlockType::Motion(i32::MAX, i32::MIN),
    ] {
        assert!(!cell.is_valid());
        let map = map_of(vec![BlockType::New, cell, BlockType::New]);
        assert!(!map.is_valid());
        let mut out = vec![1u8, 2];
        assert_eq!(map.write(&mut out), Err(CodecError::VectorRange));
        assert_eq!(out, vec![1, 2]);
    }
}

#[test]
fn reading_fails_on_bad_bytes() {
    // A repeat before any cell.
    assert_eq!(read_back(&[0xF0, 0x77], 3), Err(CodecError::BadRepeat));
    // A repeat beyond the end of the map.
    assert_eq!(read_back(&[0x77, 0xF3], 5), Err(CodecError::BadRepeat));
    assert_eq!(read_back(&[0x77, 0xF3], 6), Ok((vec![BlockType::Motion(0, 0); 6], 2)));
    // Too few bytes.
    assert_eq!(read_back(&[0x77, 0xF3], 7), Err(CodecError::UnexpectedEof));
    assert_eq!(read_back(&[], 1), Err(CodecError::UnexpectedEof));
    assert_eq!(read_back(&[], 0), Ok((vec![], 0)));
    // A failed read leaves the map alone.
    let mut map = map_of(vec![BlockType::Motion(1, 1); 4]);
    assert_eq!(map.read(&[0x00, 0xF0, 0xF0]), Err(CodecError::BadRepeat));
    assert_eq!(map.vectors, vec![BlockType::Motion(1, 1); 4]);
    assert_eq!((map.width, map.height), (4, 1));
}

#[test]
fn a_new_map_has_one_cell_for_each_macroblock() {
    let frame = VideoFrame::new(40, 17, 0u8);
    let map = MotionMap::new(&frame);
    assert_eq!((map.width, map.height), (3, 2));
    assert_eq!(map.vectors, vec![BlockType::New; 6]);
}

#[test]
fn search_stays_within_seven_pixels_and_the_reference() {
    assert_eq!(search_range(0, 16), (0, 0));
    assert_eq!(search_range(0, 32), (0, 7));
    assert_eq!(search_range(16, 32), (9, 16));
    assert_eq!(search_range(16, 48), (9, 23));
    assert_eq!(search_range(32, 52), (25, 36));
    assert_eq!(search_range(u32::MAX - 16, u32::MAX), (u32::MAX - 23, u32::MAX - 16));
}

#[test]
fn predictors_lie_inside_the_reference() {
    assert_eq!(predictor_origin(BlockType::New, 9, 9, 16, 16), Ok(None));
    assert_eq!(predictor_origin(BlockType::Motion(0, 0), 1, 2, 32, 48), Ok(Some((16, 32))));
    assert_eq!(predictor_origin(BlockType::Motion(-4, 7), 1, 0, 32, 48), Ok(Some((12, 7))));
    assert_eq!(
        predictor_origin(BlockType::Motion(-1, 0), 0, 0, 32, 48),
        Err(CodecError::PredictorOutside)
    );
    assert_eq!(
        predictor_origin(BlockType::Motion(0, 1), 1, 2, 32, 48),
        Err(CodecError::PredictorOutside)
    );
    assert_eq!(
        predictor_origin(BlockType::Motion(1, 0), 1, 0, 32, 48),
        Err(CodecError::PredictorOutside)
    );
    assert_eq!(
        predictor_origin(BlockType::Motion(i32::MAX, 0), u32::MAX, 0, u32::MAX, 48),
        Err(CodecError::PredictorOutside)
    );
}

#[test]
fn prediction_takes_each_motion_from_its_own_map() {
    let new = BlockType::New;
    assert_eq!(choose_prediction(new, new), Prediction::Intra);
    assert_eq!(choose_prediction(BlockType::Motion(1, 2), new), Prediction::Prev(1, 2));
    assert_eq!(choose_prediction(new, BlockType::Motion(3, 4)), Prediction::Next(3, 4));
    assert_eq!(
        choose_prediction(BlockType::Motion(1, 2), BlockType::Motion(3, 4)),
        Prediction::Both(1, 2, 3, 4)
    );
}

#[test]
fn thresholds_are_the_bits_of_their_doubles() {
    assert_eq!(ZMP_THRESHOLD, 512.0f64.to_bits());
    assert_eq!(NEW_THRESHOLD, 4096.0f64.to_bits());
    // Non-negative doubles are ordered as their bits are.
    let values = [0.0f64, 0.5, 1.0, 511.9, 512.0, 512.1, 4095.0, 4096.0, 5000.0, 1e300];
    for a in values {
        for b in values {
            assert_eq!(a < b, a.to_bits() < b.to_bits());
        }
    }
}

fn candidate(dx: i32, dy: i32, score: f64) -> Candidate {
    Candidate { dx, dy, score: score.to_bits() }
}

#[test]
fn the_fast_policy() {
    let tried = [candidate(-1, 0, 600.0), candidate(0, 0, 900.0), candidate(1, 0, 100.0)];
    // A good predictor in place is taken without looking further.
    assert_eq!(classify_fast(512.0f64.to_bits(), &tried), BlockType::Motion(0, 0));
    assert_eq!(classify_fast(0, &tried), BlockType::Motion(0, 0));
    // Else the least score wins.
    assert_eq!(classify_fast(900.0f64.to_bits(), &tried), BlockType::Motion(1, 0));
    // Of equal scores the first wins, the predictor in place before all.
    let equal = [candidate(-1, 0, 600.0), candidate(1, 0, 600.0)];
    assert_eq!(classify_fast(900.0f64.to_bits(), &equal), BlockType::Motion(-1, 0));
    assert_eq!(classify_fast(600.0f64.to_bits(), &equal), BlockType::Motion(0, 0));
    // Where even the best is bad, the macroblock is new.
    let bad = [candidate(-1, 0, 4097.0), candidate(1, 0, 5000.0)];
    assert_eq!(classify_fast(6000.0f64.to_bits(), &bad), BlockType::New);
    let passable = [candidate(-1, 0, 4096.0)];
    assert_eq!(classify_fast(6000.0f64.to_bits(), &passable), BlockType::Motion(-1, 0));
    assert_eq!(classify_fast(6000.0f64.to_bits(), &[]), BlockType::New);
    assert_eq!(classify_fast(600.0f64.to_bits(), &[]), BlockType::Motion(0, 0));
}

#[test]
fn the_rate_accurate_policy() {
    let tried = [
        Candidate { dx: -1, dy: 0, score: 300 },
        Candidate { dx: 0, dy: 0, score: 120 },
        Candidate { dx: 1, dy: 0, score: 120 },
    ];
    assert_eq!(classify_ult(121, &tried), BlockType::Motion(0, 0));
    assert_eq!(classify_ult(120, &tried), BlockType::New);
    assert_eq!(classify_ult(0, &tried), BlockType::New);
    assert_eq!(classify_ult(1000, &tried[..1]), BlockType::Motion(-1, 0));
    assert_eq!(classify_ult(1000, &[]), BlockType::New);
    let mut map = map_of(vec![BlockType::Motion(5, 5); 2]);
    map.calculate_ult(&[121, 100], &[tried.to_vec(), tried.to_vec()]);
    assert_eq!(map.vectors, vec![BlockType::Motion(0, 0), BlockType::New]);
}

fn sad(a: &Plane<f64>, ax: u32, ay: u32, b: &Plane<f64>, bx: u32, by: u32) -> f64 {
    let mut sum = 0.0;
    for y in 0..16 {
        for x in 0..16 {
            sum += (a.get(ax + x, ay + y) - b.get(bx + x, by + y)).abs();
        }
    }
    sum
}

fn fast_map(current: &VideoFrame<f64>, reference: &VideoFrame<f64>) -> MotionMap {
    let mut map = MotionMap::new(current);
    let mut zero_scores = Vec::new();
    let mut candidates = Vec::new();
    for my in 0..map.height {
        for mx in 0..map.width {
            let (x, y) = (mx * 16, my * 16);
            zero_scores.push(sad(&current.y_plane, x, y, &reference.y_plane, x, y).to_bits());
            let (first_x, last_x) = search_range(x, reference.width);
            let (first_y, last_y) = search_range(y, reference.height);
            let mut tried = Vec::new();
            for by in first_y..=last_y {
                for bx in first_x..=last_x {
                    tried.push(Candidate {
                        dx: bx as i32 - x as i32,
                        dy: by as i32 - y as i32,
                        score: sad(&current.y_plane, x, y, &reference.y_plane, bx, by).to_bits(),
                    });
                }
            }
            candidates.push(tried);
        }
    }
    map.calculate(&zero_scores, &candidates);
    map
}

fn textured(width: u32, height: u32, shift: u32) -> VideoFrame<f64> {
    let mut frame = VideoFrame::new(width, height, 0.0f64);
    for y in 0..frame.height {
        for x in 0..frame.width {
            let source = x.saturating_sub(shift);
            let value = ((source * 37 + y * 91 + (source * y) % 13 * 17) % 256) as f64;
            frame.y_plane.put(x, y, value);
        }
    }
    frame
}

#[test]
fn equal_frames_have_no_motion() {
    let first = textured(16, 16, 0);
    let second = textured(16, 16, 0);
    let map = fast_map(&second, &first);
    assert_eq!(map.vectors, vec![BlockType::Motion(0, 0)]);
    let wide = fast_map(&textured(48, 32, 0), &textured(48, 32, 0));
    assert_eq!(wide.vectors, vec![BlockType::Motion(0, 0); 6]);
}

#[test]
fn a_shift_to_the_right_is_found() {
    // In a frame of two by two macroblocks the left column has nothing to
    // its left to be predicted from; the right column is found.
    let first = textured(32, 32, 0);
    let second = textured(32, 32, 4);
    let map = fast_map(&second, &first);
    assert_eq!(map.vectors[1], BlockType::Motion(-4, 0));
    assert_eq!(map.vectors[3], BlockType::Motion(-4, 0));
    assert!(map.vectors[0] != BlockType::Motion(-4, 0));
    // In a wider frame these are most of the cells.
    let wide = fast_map(&textured(64, 32, 4), &textured(64, 32, 0));
    let found = wide.vectors.iter().filter(|cell| **cell == BlockType::Motion(-4, 0)).count();
    assert_eq!(found, 6, "cells: {:?}", wide.vectors);
    assert!(2 * found > wide.vectors.len());
    let mut out = Vec::new();
    assert_eq!(wide.write(&mut out), Ok(()));
}
