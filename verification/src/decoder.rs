//! Reading one coded frame out of a stream: its record, its motion maps and
//! its quantized macroblocks.

use crate::bitio::bits_of_bytes;
use crate::container::{
    lemma_b_record_round_trip, lemma_i_record_round_trip, lemma_p_record_round_trip, parse_record,
    FrameRecord,
};
use crate::error::CodecError;
use crate::motion::{
    cells_ok, copies, lemma_map_round_trip, map_of_bytes, rle_bytes, BlockType, MotionMap,
};
use crate::videocode::{
    all_blocks, blocks_in_range, coded_frame, dct_bytes, decode_blocks,
    lemma_frame_blocks_round_trip, lemma_record_len, read_macroblocks, record_body, record_bytes,
    FrameType, MacroBlock,
};
use vstd::prelude::*;
use vstd::slice::slice_subrange;

verus! {

/// What one frame record holds. A map that the type of the frame does not
/// have is all `New`.
pub struct DecodedFrame {
    pub frame_type: FrameType,
    pub motion_prev: MotionMap,
    pub motion_next: MotionMap,
    /// The quantized macroblocks, row by row.
    pub blocks: Vec<MacroBlock<i16>>,
    /// Where the next record starts.
    pub next: usize,
}

/// What a frame record holds, for contracts.
pub struct FrameContent {
    pub frame_type: FrameType,
    pub prev: Seq<BlockType>,
    pub next: Seq<BlockType>,
    pub blocks: Seq<Seq<i16>>,
}

impl View for DecodedFrame {
    type V = FrameContent;

    open spec fn view(&self) -> FrameContent {
        FrameContent {
            frame_type: self.frame_type,
            prev: self.motion_prev.vectors@,
            next: self.motion_next.vectors@,
            blocks: all_blocks(self.blocks@),
        }
    }
}

/// The map of `cells` cells that a section holds, where the frame has that
/// map; else `cells` cells that are `New`.
pub open spec fn map_in(section: Seq<u8>, cells: int, present: bool) -> Result<
    Seq<BlockType>,
    CodecError,
> {
    if present {
        match map_of_bytes(section, cells) {
            Err(e) => Err(e),
            Ok((map, rest)) => Ok(map),
        }
    } else {
        Ok(copies(BlockType::New, cells))
    }
}

/// What the record `record` of a frame of `cells` macroblocks holds in
/// `data`: the motion maps that its type has, and six blocks for each
/// macroblock; or the first reason why it holds none.
pub open spec fn content_of(data: Seq<u8>, record: FrameRecord, cells: int) -> Result<
    FrameContent,
    CodecError,
> {
    match map_in(record.mprev.of(data), cells, record.frame_type != FrameType::IFrame) {
        Err(e) => Err(e),
        Ok(prev) => match map_in(
            record.mnext.of(data),
            cells,
            record.frame_type == FrameType::BFrame,
        ) {
            Err(e) => Err(e),
            Ok(next) => match decode_blocks(
                bits_of_bytes(record.dct.of(data)),
                6 * cells,
                Seq::empty(),
            ) {
                Err(e) => Err(e),
                Ok((blocks, rest)) => Ok(
                    FrameContent { frame_type: record.frame_type, prev, next, blocks },
                ),
            },
        },
    }
}

/// The frame of `cells` macroblocks whose record starts at `start`.
pub open spec fn frame_at(data: Seq<u8>, start: int, cells: int) -> Result<
    FrameContent,
    CodecError,
> {
    match parse_record(data, start) {
        Err(e) => Err(e),
        Ok(record) => content_of(data, record, cells),
    }
}

/// Reads the frame whose record starts at `start`, for a picture of `width`
/// by `height` macroblocks.
pub fn decode_frame(data: &[u8], start: usize, width: u32, height: u32) -> (r: Result<
    DecodedFrame,
    CodecError,
>)
    requires
        6 * (width * height) <= usize::MAX,
    ensures
        match frame_at(data@, start as int, width * height) {
            Err(e) => r is Err && r->Err_0 == e,
            Ok(content) => {
                &&& r is Ok
                &&& r->Ok_0@ == content
                &&& r->Ok_0.blocks@.len() == width * height
                &&& r->Ok_0.motion_prev.wf()
                &&& r->Ok_0.motion_prev.width == width
                &&& r->Ok_0.motion_prev.height == height
                &&& r->Ok_0.motion_next.wf()
                &&& r->Ok_0.motion_next.width == width
                &&& r->Ok_0.motion_next.height == height
                &&& parse_record(data@, start as int) is Ok
                &&& r->Ok_0.next == parse_record(data@, start as int)->Ok_0.next
            },
        },
{
    let record = match FrameRecord::read(data, start) {
        Ok(record) => record,
        Err(e) => {
            return Err(e);
        },
    };
    let mut motion_prev = MotionMap::with_size(width, height);
    let mut motion_next = MotionMap::with_size(width, height);
    let cells = width as usize * height as usize;
    match record.frame_type {
        FrameType::IFrame => {},
        _ => {
            let bytes = slice_subrange(
                data,
                record.mprev.start,
                record.mprev.start + record.mprev.len,
            );
            match motion_prev.read(bytes) {
                Ok(used) => {},
                Err(e) => {
                    return Err(e);
                },
            }
        },
    }
    match record.frame_type {
        FrameType::BFrame => {
            let bytes = slice_subrange(
                data,
                record.mnext.start,
                record.mnext.start + record.mnext.len,
            );
            match motion_next.read(bytes) {
                Ok(used) => {},
                Err(e) => {
                    return Err(e);
                },
            }
        },
        _ => {},
    }
    let coded = slice_subrange(data, record.dct.start, record.dct.start + record.dct.len);
    let blocks = match read_macroblocks(coded, cells) {
        Ok(blocks) => blocks,
        Err(e) => {
            return Err(e);
        },
    };
    Ok(
        DecodedFrame {
            frame_type: record.frame_type,
            motion_prev,
            motion_next,
            blocks,
            next: record.next,
        },
    )
}

/// A map that was written into a section is read back from it.
proof fn lemma_map_in_section(cells: Seq<BlockType>)
    requires
        cells_ok(cells),
    ensures
        map_in(rle_bytes(cells), cells.len() as int, true) == Ok::<Seq<BlockType>, CodecError>(
            cells,
        ),
{
    lemma_map_round_trip(cells, Seq::empty());
    assert(rle_bytes(cells) + Seq::<u8>::empty() =~= rle_bytes(cells));
}

/// Decoding what was coded gives back what went in. Where a frame of type
/// `t` with the motion maps `prev` and `next` and the quantized macroblocks
/// `blocks` has a record, and the record stands in a stream behind `pre`
/// and before `post`, the frame read at the start of the record has the
/// type, the maps that the type has, and the macroblocks; and the next
/// record starts right behind this one.
pub proof fn lemma_frame_round_trip(
    pre: Seq<u8>,
    t: FrameType,
    prev: Seq<BlockType>,
    next: Seq<BlockType>,
    blocks: Seq<MacroBlock<i16>>,
    post: Seq<u8>,
)
    requires
        coded_frame(t, prev, next, blocks) is Ok,
        t != FrameType::IFrame ==> prev.len() == blocks.len(),
        t == FrameType::BFrame ==> next.len() == blocks.len(),
        pre.len() + coded_frame(t, prev, next, blocks)->Ok_0.len() + post.len() <= usize::MAX,
    ensures
        ({
            let data = pre + coded_frame(t, prev, next, blocks)->Ok_0 + post;
            let cells = blocks.len() as int;
            &&& parse_record(data, pre.len() as int) is Ok
            &&& parse_record(data, pre.len() as int)->Ok_0.next == pre.len() + coded_frame(
                t,
                prev,
                next,
                blocks,
            )->Ok_0.len()
            &&& frame_at(data, pre.len() as int, cells) == Ok::<FrameContent, CodecError>(
                FrameContent {
                    frame_type: t,
                    prev: if t != FrameType::IFrame {
                        prev
                    } else {
                        copies(BlockType::New, cells)
                    },
                    next: if t == FrameType::BFrame {
                        next
                    } else {
                        copies(BlockType::New, cells)
                    },
                    blocks: all_blocks(blocks),
                },
            )
        }),
{
    reveal(coded_frame);
    let mprev = rle_bytes(prev);
    let mnext = rle_bytes(next);
    let dct = dct_bytes(blocks);
    lemma_record_len(t, mprev, mnext, dct);
    lemma_frame_blocks_round_trip(blocks);
    match t {
        FrameType::IFrame => {
            lemma_record_len(t, Seq::empty(), Seq::empty(), dct);
            assert(record_bytes(t, mprev, mnext, dct) == record_bytes(
                t,
                Seq::empty(),
                Seq::empty(),
                dct,
            ));
            lemma_i_record_round_trip(pre, dct, post);
        },
        FrameType::PFrame => {
            lemma_record_len(t, mprev, Seq::empty(), dct);
            assert(record_bytes(t, mprev, mnext, dct) == record_bytes(
                t,
                mprev,
                Seq::empty(),
                dct,
            ));
            lemma_p_record_round_trip(pre, mprev, dct, post);
            lemma_map_in_section(prev);
        },
        FrameType::BFrame => {
            lemma_b_record_round_trip(pre, mprev, mnext, dct, post);
            lemma_map_in_section(prev);
            lemma_map_in_section(next);
        },
    }
}

} // verus!
