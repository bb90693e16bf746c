//! Motion maps: one cell per 16×16 macroblock, and the run-length coded
//! bytes that carry a map.

use crate::error::CodecError;
use crate::videocode::VideoFrame;
use vstd::prelude::*;

verus! {

/// The largest motion in either direction, in pixels.
pub const SEARCH_RADIUS: i32 = 7;

/// The longest run that one repeat marker can stand for.
pub const MAX_REPEAT: u32 = 31;

/// How a macroblock is predicted.
#[derive(Clone, Copy, Debug, PartialEq, Eq, Structural)]
pub enum BlockType {
    /// No useful predictor: the macroblock is coded by itself.
    New,
    /// Predicted from the reference, moved by `(dx, dy)` pixels.
    Motion(i32, i32),
}

/// What one byte of a serialized map stands for.
#[derive(Clone, Copy, Debug, PartialEq, Eq, Structural)]
pub enum MapByte {
    /// One cell.
    Cell(BlockType),
    /// The cell before, this many times more.
    Repeat(u32),
}

/// The cells of a frame's macroblocks, row by row.
#[derive(Debug)]
pub struct MotionMap {
    pub vectors: Vec<BlockType>,
    pub width: u32,
    pub height: u32,
}

/// Whether a cell can be serialized: a motion stays within the search
/// radius.
pub open spec fn cell_ok(cell: BlockType) -> bool {
    match cell {
        BlockType::New => true,
        BlockType::Motion(dx, dy) => -7 <= dx <= 7 && -7 <= dy <= 7,
    }
}

/// Whether every cell can be serialized.
pub open spec fn cells_ok(cells: Seq<BlockType>) -> bool {
    forall|i: int| 0 <= i < cells.len() ==> cell_ok(#[trigger] cells[i])
}

/// The byte of a cell: `0xFF` for `New`; for a motion, `dx + 7` in the high
/// four bits and `dy + 7` in the low four.
pub open spec fn cell_byte(cell: BlockType) -> u8 {
    match cell {
        BlockType::New => 0xFF,
        BlockType::Motion(dx, dy) => ((dx + 7) * 16 + (dy + 7)) as u8,
    }
}

/// The byte of a repeat marker for `count` more copies, `2 <= count <= 31`:
/// up to sixteen, `count - 2` in the low four bits under a high `0xF`; above,
/// `count - 17` in the high four bits over a low `0xF`.
pub open spec fn repeat_byte(count: int) -> u8 {
    if count <= 16 {
        (0xF0 + (count - 2)) as u8
    } else {
        ((count - 17) * 16 + 0x0F) as u8
    }
}

/// What a byte stands for.
pub open spec fn byte_meaning(byte: u8) -> MapByte {
    let high = byte as int / 16;
    let low = byte as int % 16;
    if high == 15 && low == 15 {
        MapByte::Cell(BlockType::New)
    } else if high == 15 {
        MapByte::Repeat((low + 2) as u32)
    } else if low == 15 {
        MapByte::Repeat((high + 17) as u32)
    } else {
        MapByte::Cell(BlockType::Motion((high - 7) as i32, (low - 7) as i32))
    }
}

/// How many cells at the start of `cells` equal `cell`, counting no more
/// than `cap`.
pub open spec fn leading_run(cells: Seq<BlockType>, cell: BlockType, cap: int) -> int
    decreases cells.len(),
{
    if cap <= 0 || cells.len() == 0 || cells[0] != cell {
        0
    } else {
        1 + leading_run(cells.skip(1), cell, cap - 1)
    }
}

/// The bytes that stand for `extra` more copies of `cell`: none, the cell
/// once more, or one repeat marker.
pub open spec fn repeat_bytes(cell: BlockType, extra: int) -> Seq<u8> {
    if extra <= 0 {
        Seq::empty()
    } else if extra == 1 {
        seq![cell_byte(cell)]
    } else {
        seq![repeat_byte(extra)]
    }
}

/// The serialized form of a sequence of cells. Each maximal run of equal
/// cells, cut into pieces of at most thirty-two, gives the byte of its cell
/// and then the bytes for the copies that follow.
pub open spec fn rle_bytes(cells: Seq<BlockType>) -> Seq<u8>
    decreases cells.len(),
{
    if cells.len() == 0 {
        Seq::empty()
    } else {
        let extra = leading_run(cells.skip(1), cells[0], 31);
        if 0 <= extra < cells.len() {
            seq![cell_byte(cells[0])] + repeat_bytes(cells[0], extra) + rle_bytes(
                cells.skip(1 + extra),
            )
        } else {
            Seq::empty()
        }
    }
}

/// `count` copies of `cell`.
pub open spec fn copies(cell: BlockType, count: int) -> Seq<BlockType> {
    Seq::new(count as nat, |i: int| cell)
}

/// What reading a map of `total` cells gives, with `done` already read and
/// `last` the cell read last: all the cells and the bytes that are left, or
/// the reason why the bytes are no such map.
#[verifier::opaque]
pub open spec fn rle_decode(
    bytes: Seq<u8>,
    total: int,
    last: Option<BlockType>,
    done: Seq<BlockType>,
) -> Result<(Seq<BlockType>, Seq<u8>), CodecError>
    decreases bytes.len(),
{
    if done.len() >= total {
        Ok((done, bytes))
    } else if bytes.len() == 0 {
        Err(CodecError::UnexpectedEof)
    } else {
        match byte_meaning(bytes[0]) {
            MapByte::Cell(cell) => rle_decode(bytes.skip(1), total, Some(cell), done.push(cell)),
            MapByte::Repeat(count) => match last {
                None => Err(CodecError::BadRepeat),
                Some(cell) => if done.len() + count > total {
                    Err(CodecError::BadRepeat)
                } else {
                    rle_decode(bytes.skip(1), total, last, done + copies(cell, count as int))
                },
            },
        }
    }
}

/// What reading a whole map of `total` cells from `bytes` gives.
pub open spec fn map_of_bytes(bytes: Seq<u8>, total: int) -> Result<
    (Seq<BlockType>, Seq<u8>),
    CodecError,
> {
    rle_decode(bytes, total, None, Seq::empty())
}

impl Clone for MotionMap {
    fn clone(&self) -> (copy: Self)
        ensures
            copy.vectors@ == self.vectors@,
            copy.width == self.width,
            copy.height == self.height,
    {
        let mut vectors: Vec<BlockType> = Vec::new();
        let mut i: usize = 0;
        while i < self.vectors.len()
            invariant
                0 <= i <= self.vectors@.len(),
                vectors@ == self.vectors@.take(i as int),
            decreases self.vectors@.len() - i,
        {
            vectors.push(self.vectors[i]);
            i = i + 1;
            proof {
                assert(vectors@ =~= self.vectors@.take(i as int));
            }
        }
        proof {
            assert(self.vectors@.take(i as int) =~= self.vectors@);
        }
        MotionMap { vectors, width: self.width, height: self.height }
    }
}

impl MapByte {
    /// What `byte` stands for.
    pub fn from_byte(byte: u8) -> (meaning: MapByte)
        ensures
            meaning == byte_meaning(byte),
    {
        let high = byte / 16;
        let low = byte % 16;
        if high == 15 && low == 15 {
            MapByte::Cell(BlockType::New)
        } else if high == 15 {
            MapByte::Repeat((low + 2) as u32)
        } else if low == 15 {
            MapByte::Repeat((high + 17) as u32)
        } else {
            MapByte::Cell(BlockType::Motion(high as i32 - 7, low as i32 - 7))
        }
    }
}

impl BlockType {
    /// Whether the cell can be serialized.
    pub fn is_valid(self) -> (ok: bool)
        ensures
            ok == cell_ok(self),
    {
        match self {
            BlockType::New => true,
            BlockType::Motion(dx, dy) => -SEARCH_RADIUS <= dx && dx <= SEARCH_RADIUS
                && -SEARCH_RADIUS <= dy && dy <= SEARCH_RADIUS,
        }
    }

    /// The byte of a cell that can be serialized.
    pub fn to_byte(self) -> (byte: u8)
        requires
            cell_ok(self),
        ensures
            byte == cell_byte(self),
            byte_meaning(byte) == MapByte::Cell(self),
    {
        match self {
            BlockType::New => 0xFF,
            BlockType::Motion(dx, dy) => ((dx + 7) * 16 + (dy + 7)) as u8,
        }
    }
}

/// The byte of a repeat marker.
pub fn repeat_to_byte(count: u32) -> (byte: u8)
    requires
        2 <= count <= 31,
    ensures
        byte == repeat_byte(count as int),
        byte_meaning(byte) == MapByte::Repeat(count),
{
    if count <= 16 {
        (0xF0 + (count - 2)) as u8
    } else {
        ((count - 17) * 16 + 0x0F) as u8
    }
}

/// A leading run is no longer than its cap or the cells, holds only
/// copies of the cell, and stops only at the cap, at the end, or at another
/// cell.
pub proof fn lemma_leading_run(cells: Seq<BlockType>, cell: BlockType, cap: int)
    requires
        0 <= cap,
    ensures
        0 <= leading_run(cells, cell, cap) <= cap,
        leading_run(cells, cell, cap) <= cells.len(),
        forall|j: int| 0 <= j < leading_run(cells, cell, cap) ==> cells[j] == cell,
        leading_run(cells, cell, cap) < cap && leading_run(cells, cell, cap) < cells.len()
            ==> cells[leading_run(cells, cell, cap)] != cell,
    decreases cells.len(),
{
    if cap <= 0 || cells.len() == 0 || cells[0] != cell {
    } else {
        let tail = cells.skip(1);
        lemma_leading_run(tail, cell, cap - 1);
        let run = leading_run(cells, cell, cap);
        assert forall|j: int| 0 <= j < run implies cells[j] == cell by {
            if j > 0 {
                assert(tail[j - 1] == cells[j]);
            }
        }
        if run < cap && run < cells.len() {
            assert(tail[run - 1] == cells[run]);
        }
    }
}

/// The serialized form of cells that do not start the map is that of the
/// first cell, its copies, and the rest.
proof fn lemma_rle_bytes_from(cells: Seq<BlockType>, i: int)
    requires
        0 <= i < cells.len(),
    ensures
        ({
            let extra = leading_run(cells.skip(i + 1), cells[i], 31);
            &&& 0 <= extra <= 31
            &&& i + 1 + extra <= cells.len()
            &&& rle_bytes(cells.skip(i)) == seq![cell_byte(cells[i])] + repeat_bytes(
                cells[i],
                extra,
            ) + rle_bytes(cells.skip(i + 1 + extra))
        }),
{
    let here = cells.skip(i);
    assert(here.skip(1) =~= cells.skip(i + 1));
    let extra = leading_run(here.skip(1), here[0], 31);
    lemma_leading_run(here.skip(1), here[0], 31);
    assert(here.skip(1 + extra) =~= cells.skip(i + 1 + extra));
}

impl MotionMap {
    /// The map holds one cell for each place of its grid.
    pub open spec fn wf(&self) -> bool {
        self.vectors@.len() == self.width * self.height
    }

    /// Whether every cell of the map can be serialized.
    pub fn is_valid(&self) -> (ok: bool)
        ensures
            ok == cells_ok(self.vectors@),
    {
        let mut i: usize = 0;
        while i < self.vectors.len()
            invariant
                0 <= i <= self.vectors.len(),
                forall|j: int| 0 <= j < i ==> cell_ok(#[trigger] self.vectors@[j]),
            decreases self.vectors.len() - i,
        {
            if !self.vectors[i].is_valid() {
                return false;
            }
            i = i + 1;
        }
        true
    }

    /// Appends the serialized map to `writer`. A map that holds a motion
    /// beyond the search radius is refused, and nothing is written.
    pub fn write(&self, writer: &mut Vec<u8>) -> (r: Result<(), CodecError>)
        ensures
            r is Ok <==> cells_ok(self.vectors@),
            r is Ok ==> final(writer)@ == old(writer)@ + rle_bytes(self.vectors@),
            r is Err ==> r == Err::<(), CodecError>(CodecError::VectorRange)
                && final(writer)@ == old(writer)@,
    {
        if !self.is_valid() {
            return Err(CodecError::VectorRange);
        }
        let ghost cells = self.vectors@;
        let ghost total = writer@ + rle_bytes(cells);
        if self.vectors.len() == 0 {
            assert(writer@ =~= total);
            return Ok(());
        }
        let mut last = self.vectors[0];
        let mut repeats: u32 = 0;
        assert(cell_ok(cells[0]));
        proof {
            lemma_rle_bytes_from(cells, 0);
            assert(cells.skip(0) =~= cells);
        }
        writer.push(last.to_byte());
        proof {
            let extra = leading_run(cells.skip(1), cells[0], 31);
            assert(total =~= writer@ + repeat_bytes(last, extra) + rle_bytes(
                cells.skip(1 + extra),
            ));
        }
        let mut i: usize = 1;
        while i < self.vectors.len()
            invariant
                cells == self.vectors@,
                cells_ok(cells),
                cell_ok(last),
                1 <= i <= cells.len(),
                0 <= repeats <= 31,
                total == old(writer)@ + rle_bytes(cells),
                ({
                    let ahead = leading_run(cells.skip(i as int), last, 31 - repeats);
                    &&& i + ahead <= cells.len()
                    &&& total == writer@ + repeat_bytes(last, repeats + ahead) + rle_bytes(
                        cells.skip(i + ahead),
                    )
                }),
            decreases cells.len() - i,
        {
            let vector = self.vectors[i];
            let ghost ahead = leading_run(cells.skip(i as int), last, 31 - repeats);
            proof {
                assert(cells.skip(i as int)[0] == vector);
                assert(cells.skip(i as int).skip(1) =~= cells.skip(i + 1));
                assert(cell_ok(cells[i as int]));
            }
            if vector == last && repeats < 31 {
                repeats = repeats + 1;
            } else {
                assert(ahead == 0);
                let ghost sofar = writer@;
                if repeats == 1 {
                    writer.push(last.to_byte());
                } else if repeats > 1 {
                    writer.push(repeat_to_byte(repeats));
                }
                assert(writer@ =~= sofar + repeat_bytes(last, repeats as int));
                proof {
                    lemma_rle_bytes_from(cells, i as int);
                }
                repeats = 0;
                last = vector;
                writer.push(vector.to_byte());
                proof {
                    let extra = leading_run(cells.skip(i + 1), vector, 31);
                    assert(total =~= writer@ + repeat_bytes(vector, extra) + rle_bytes(
                        cells.skip(i + 1 + extra),
                    ));
                }
            }
            i = i + 1;
        }
        let ghost sofar = writer@;
        if repeats == 1 {
            writer.push(last.to_byte());
        } else if repeats > 1 {
            writer.push(repeat_to_byte(repeats));
        }
        proof {
            assert(cells.skip(i as int) =~= Seq::<BlockType>::empty());
            assert(writer@ =~= sofar + repeat_bytes(last, repeats as int));
            assert(writer@ =~= total);
        }
        Ok(())
    }
}

impl MotionMap {
    /// Fills the map from its serialized form at the start of `data`, and
    /// returns the number of bytes taken. The map keeps its size; bytes
    /// behind the last cell are left alone. On failure the map is left as
    /// it was.
    pub fn read(&mut self, data: &[u8]) -> (r: Result<usize, CodecError>)
        ensures
            final(self).width == old(self).width,
            final(self).height == old(self).height,
            final(self).vectors@.len() == old(self).vectors@.len(),
            match map_of_bytes(data@, old(self).vectors@.len() as int) {
                Ok((cells, rest)) => {
                    &&& r == Ok::<usize, CodecError>((data@.len() - rest.len()) as usize)
                    &&& rest == data@.skip(data@.len() - rest.len())
                    &&& final(self).vectors@ == cells
                },
                Err(e) => {
                    &&& r == Err::<usize, CodecError>(e)
                    &&& final(self).vectors@ == old(self).vectors@
                },
            },
    {
        let total = self.vectors.len();
        let mut cells: Vec<BlockType> = Vec::new();
        let mut last: Option<BlockType> = None;
        let mut pos: usize = 0;
        proof {
            assert(data@.skip(0) =~= data@);
        }
        while cells.len() < total
            invariant
                *self == *old(self),
                total == self.vectors@.len(),
                0 <= pos <= data@.len(),
                cells@.len() <= total,
                rle_decode(data@.skip(pos as int), total as int, last, cells@) == map_of_bytes(
                    data@,
                    total as int,
                ),
            decreases data@.len() - pos,
        {
            proof {
                reveal(rle_decode);
            }
            if pos >= data.len() {
                return Err(CodecError::UnexpectedEof);
            }
            proof {
                assert(data@.skip(pos as int)[0] == data@[pos as int]);
                assert(data@.skip(pos as int).skip(1) =~= data@.skip(pos + 1));
            }
            match MapByte::from_byte(data[pos]) {
                MapByte::Cell(cell) => {
                    cells.push(cell);
                    last = Some(cell);
                },
                MapByte::Repeat(count) => {
                    let cell = match last {
                        None => {
                            return Err(CodecError::BadRepeat);
                        },
                        Some(cell) => cell,
                    };
                    if count as usize > total - cells.len() {
                        return Err(CodecError::BadRepeat);
                    }
                    let ghost start = cells@;
                    let mut k: u32 = 0;
                    proof {
                        assert(cells@ =~= start + copies(cell, 0));
                    }
                    while k < count
                        invariant
                            0 <= k <= count,
                            cells@ == start + copies(cell, k as int),
                        decreases count - k,
                    {
                        cells.push(cell);
                        k = k + 1;
                        proof {
                            assert(cells@ =~= start + copies(cell, k as int));
                        }
                    }
                },
            }
            pos = pos + 1;
        }
        proof {
            reveal(rle_decode);
        }
        self.vectors = cells;
        Ok(pos)
    }
}

/// The byte of a cell reads back as the cell.
proof fn lemma_decode_cell(
    follow: Seq<u8>,
    total: int,
    last: Option<BlockType>,
    done: Seq<BlockType>,
    cell: BlockType,
)
    requires
        cell_ok(cell),
        done.len() < total,
    ensures
        rle_decode(seq![cell_byte(cell)] + follow, total, last, done) == rle_decode(
            follow,
            total,
            Some(cell),
            done.push(cell),
        ),
{
    reveal(rle_decode);
    let bytes = seq![cell_byte(cell)] + follow;
    assert(bytes.skip(1) =~= follow);
    assert(bytes[0] == cell_byte(cell));
    assert(byte_meaning(cell_byte(cell)) == MapByte::Cell(cell));
}

/// A repeat marker reads back as that many copies of the cell before it.
proof fn lemma_decode_repeat(
    follow: Seq<u8>,
    total: int,
    cell: BlockType,
    done: Seq<BlockType>,
    count: int,
)
    requires
        2 <= count <= 31,
        done.len() + count <= total,
    ensures
        rle_decode(seq![repeat_byte(count)] + follow, total, Some(cell), done) == rle_decode(
            follow,
            total,
            Some(cell),
            done + copies(cell, count),
        ),
{
    reveal(rle_decode);
    let bytes = seq![repeat_byte(count)] + follow;
    assert(bytes.skip(1) =~= follow);
    assert(bytes[0] == repeat_byte(count));
    assert(byte_meaning(repeat_byte(count)) == MapByte::Repeat(count as u32));
}

/// Reading what was written for `tail`, after `done`, gives both.
proof fn lemma_rle_round_trip(
    done: Seq<BlockType>,
    tail: Seq<BlockType>,
    last: Option<BlockType>,
    rest: Seq<u8>,
)
    requires
        cells_ok(tail),
    ensures
        rle_decode(rle_bytes(tail) + rest, (done.len() + tail.len()) as int, last, done) == Ok::<
            (Seq<BlockType>, Seq<u8>),
            CodecError,
        >((done + tail, rest)),
    decreases tail.len(),
{
    let total = (done.len() + tail.len()) as int;
    if tail.len() == 0 {
        reveal(rle_decode);
        assert(rle_bytes(tail) + rest =~= rest);
        assert(done + tail =~= done);
    } else {
        let cell = tail[0];
        assert(cell_ok(cell));
        lemma_rle_bytes_from(tail, 0);
        assert(tail.skip(0) =~= tail);
        let extra = leading_run(tail.skip(1), cell, 31);
        lemma_leading_run(tail.skip(1), cell, 31);
        let next = tail.skip(1 + extra);
        let follow = rle_bytes(next) + rest;
        let one = done.push(cell);
        assert(cells_ok(next)) by {
            assert forall|i: int| 0 <= i < next.len() implies cell_ok(#[trigger] next[i]) by {
                assert(next[i] == tail[1 + extra + i]);
            }
        }
        assert forall|j: int| 1 <= j < 1 + extra implies tail[j] == cell by {
            assert(tail.skip(1)[j - 1] == tail[j]);
        }
        if extra == 0 {
            lemma_decode_cell(follow, total, last, done, cell);
            assert(rle_bytes(tail) + rest =~= seq![cell_byte(cell)] + follow);
            lemma_rle_round_trip(one, next, Some(cell), rest);
            assert(one + next =~= done + tail);
        } else if extra == 1 {
            let middle = seq![cell_byte(cell)] + follow;
            lemma_decode_cell(middle, total, last, done, cell);
            lemma_decode_cell(follow, total, Some(cell), one, cell);
            assert(rle_bytes(tail) + rest =~= seq![cell_byte(cell)] + middle);
            lemma_rle_round_trip(one.push(cell), next, Some(cell), rest);
            assert(one.push(cell) + next =~= done + tail);
        } else {
            let middle = seq![repeat_byte(extra)] + follow;
            lemma_decode_cell(middle, total, last, done, cell);
            lemma_decode_repeat(follow, total, cell, one, extra);
            assert(rle_bytes(tail) + rest =~= seq![cell_byte(cell)] + middle);
            let filled = one + copies(cell, extra);
            lemma_rle_round_trip(filled, next, Some(cell), rest);
            assert(filled + next =~= done + tail);
        }
    }
}

/// Reading a map back from what `write` wrote gives the map, and leaves
/// what followed it: for every map whose motions stay within the search
/// radius.
pub proof fn lemma_map_round_trip(cells: Seq<BlockType>, rest: Seq<u8>)
    requires
        cells_ok(cells),
    ensures
        map_of_bytes(rle_bytes(cells) + rest, cells.len() as int) == Ok::<
            (Seq<BlockType>, Seq<u8>),
            CodecError,
        >((cells, rest)),
{
    lemma_rle_round_trip(Seq::empty(), cells, None, rest);
    assert(Seq::<BlockType>::empty() + cells =~= cells);
}

/// A serialized map is never longer than one byte for each cell.
pub proof fn lemma_rle_bytes_len(cells: Seq<BlockType>)
    ensures
        rle_bytes(cells).len() <= cells.len(),
    decreases cells.len(),
{
    if cells.len() > 0 {
        lemma_rle_bytes_from(cells, 0);
        assert(cells.skip(0) =~= cells);
        let extra = leading_run(cells.skip(1), cells[0], 31);
        lemma_rle_bytes_len(cells.skip(1 + extra));
    }
}

/// Sixteenths of both sides of a rectangle span no more than the rectangle.
proof fn lemma_cells_fit(width: int, height: int)
    by (nonlinear_arith)
    requires
        0 <= width,
        0 <= height,
    ensures
        0 <= (width / 16) * (height / 16) <= width * height,
{
}

impl MotionMap {
    /// A map of `width` by `height` cells, every cell `New`.
    pub fn with_size(width: u32, height: u32) -> (map: MotionMap)
        requires
            width * height <= usize::MAX,
        ensures
            map.wf(),
            map.width == width,
            map.height == height,
            map.vectors@ == copies(BlockType::New, width * height),
    {
        let total = width as usize * height as usize;
        let mut vectors: Vec<BlockType> = Vec::new();
        let mut i: usize = 0;
        while i < total
            invariant
                0 <= i <= total,
                vectors@.len() == i,
                forall|j: int| 0 <= j < i ==> vectors@[j] == BlockType::New,
            decreases total - i,
        {
            vectors.push(BlockType::New);
            i = i + 1;
        }
        assert(vectors@ =~= copies(BlockType::New, width * height));
        MotionMap { vectors, width, height }
    }

    /// A map for the macroblocks of `frame`, every cell `New`.
    pub fn new<T: Copy>(frame: &VideoFrame<T>) -> (map: MotionMap)
        requires
            frame.wf(),
        ensures
            map.wf(),
            map.width == frame.width / 16,
            map.height == frame.height / 16,
            map.vectors@ == copies(BlockType::New, map.width * map.height),
    {
        proof {
            lemma_cells_fit(frame.width as int, frame.height as int);
            assert(frame.y_plane.data.len() <= usize::MAX);
        }
        MotionMap::with_size(frame.width / 16, frame.height / 16)
    }
}

/// The first and last place, along one axis, at which a macroblock of the
/// reference is tried as predictor for the macroblock at `origin`: at most
/// seven pixels to either side, and inside a reference of `extent` pixels.
pub fn search_range(origin: u32, extent: u32) -> (range: (u32, u32))
    requires
        origin + 16 <= extent,
    ensures
        range.0 == (if origin >= 7 {
            origin - 7
        } else {
            0
        }),
        range.1 == (if origin + 7 <= extent - 16 {
            origin + 7
        } else {
            extent - 16
        }),
        range.0 <= origin <= range.1,
        range.1 + 16 <= extent,
{
    let first = if origin >= 7 {
        origin - 7
    } else {
        0
    };
    let room = extent - 16 - origin;
    let last = if room >= 7 {
        origin + 7
    } else {
        extent - 16
    };
    (first, last)
}

/// Where the predictor of a macroblock lies in the reference.
pub open spec fn predictor_place(cell: BlockType, mx: int, my: int) -> (int, int) {
    match cell {
        BlockType::New => (16 * mx, 16 * my),
        BlockType::Motion(dx, dy) => (16 * mx + dx, 16 * my + dy),
    }
}

/// The top left corner, in the reference, of the predictor of the
/// macroblock in column `mx` and row `my` of the map: none for a `New`
/// cell; for a motion, the macroblock's own corner moved by the motion.
/// A predictor that does not lie inside a reference of `width` by `height`
/// pixels is refused.
pub fn predictor_origin(cell: BlockType, mx: u32, my: u32, width: u32, height: u32) -> (r: Result<
    Option<(u32, u32)>,
    CodecError,
>)
    ensures
        cell == BlockType::New ==> r == Ok::<Option<(u32, u32)>, CodecError>(None),
        cell != BlockType::New ==> {
            let place = predictor_place(cell, mx as int, my as int);
            if 0 <= place.0 && place.0 + 16 <= width && 0 <= place.1 && place.1 + 16 <= height {
                r == Ok::<Option<(u32, u32)>, CodecError>(Some((place.0 as u32, place.1 as u32)))
            } else {
                r == Err::<Option<(u32, u32)>, CodecError>(CodecError::PredictorOutside)
            }
        },
{
    match cell {
        BlockType::New => Ok(None),
        BlockType::Motion(dx, dy) => {
            let x = 16 * (mx as i64) + dx as i64;
            let y = 16 * (my as i64) + dy as i64;
            if x < 0 || x + 16 > width as i64 || y < 0 || y + 16 > height as i64 {
                Err(CodecError::PredictorOutside)
            } else {
                Ok(Some((x as u32, y as u32)))
            }
        },
    }
}

/// From which supports a macroblock of a `B` frame is predicted.
#[derive(Clone, Copy, Debug, PartialEq, Eq, Structural)]
pub enum Prediction {
    /// From none: the macroblock is coded by itself.
    Intra,
    /// From the support before, moved by the motion.
    Prev(i32, i32),
    /// From the support after, moved by the motion.
    Next(i32, i32),
    /// From the mean of both supports, each moved by its own motion: that
    /// of the support before, and then that of the support after.
    Both(i32, i32, i32, i32),
}

/// The prediction of a macroblock whose cells in the two motion maps are
/// `prev` and `next`: the mean of both predictors where both cells are
/// motions, the one predictor where one is, and none where none is.
pub fn choose_prediction(prev: BlockType, next: BlockType) -> (p: Prediction)
    ensures
        p == (match (prev, next) {
            (BlockType::Motion(px, py), BlockType::Motion(nx, ny)) => Prediction::Both(
                px,
                py,
                nx,
                ny,
            ),
            (BlockType::Motion(px, py), BlockType::New) => Prediction::Prev(px, py),
            (BlockType::New, BlockType::Motion(nx, ny)) => Prediction::Next(nx, ny),
            (BlockType::New, BlockType::New) => Prediction::Intra,
        }),
{
    match prev {
        BlockType::Motion(px, py) => match next {
            BlockType::Motion(nx, ny) => Prediction::Both(px, py, nx, ny),
            BlockType::New => Prediction::Prev(px, py),
        },
        BlockType::New => match next {
            BlockType::Motion(nx, ny) => Prediction::Next(nx, ny),
            BlockType::New => Prediction::Intra,
        },
    }
}

/// The serialized form of `count` copies of one cell: two bytes for each
/// thirty-two cells, and for the rest one byte or two.
pub proof fn lemma_rle_bytes_of_run(cell: BlockType, count: int)
    requires
        0 <= count,
    ensures
        rle_bytes(copies(cell, count)).len() == 2 * (count / 32) + (if count % 32 >= 2 {
            2int
        } else {
            count % 32
        }),
    decreases count,
{
    let cells = copies(cell, count);
    if count > 0 {
        lemma_rle_bytes_from(cells, 0);
        assert(cells.skip(0) =~= cells);
        let extra = leading_run(cells.skip(1), cell, 31);
        lemma_leading_run(cells.skip(1), cell, 31);
        if extra < 31 && extra < count - 1 {
            assert(cells.skip(1)[extra] == cell);
        }
        assert(extra == (if count - 1 < 31 {
            count - 1
        } else {
            31
        }));
        assert(cells.skip(1 + extra) =~= copies(cell, count - 1 - extra));
        lemma_rle_bytes_of_run(cell, count - 1 - extra);
    }
}

/// A longer run of one cell never takes fewer bytes, and never more than
/// two bytes for each thirty-two cells begun: the cost of a cell falls as
/// the run grows.
pub proof fn lemma_rle_bytes_of_run_bounds(cell: BlockType, count: int)
    requires
        0 <= count,
    ensures
        rle_bytes(copies(cell, count)).len() <= 2 * ((count + 31) / 32),
        rle_bytes(copies(cell, count)).len() <= rle_bytes(copies(cell, count + 1)).len(),
{
    lemma_rle_bytes_of_run(cell, count);
    lemma_rle_bytes_of_run(cell, count + 1);
}

/// A score at or below which the predictor at the macroblock's own place
/// is taken without a search. Scores are compared as unsigned integers; this
/// one is the bit pattern of the IEEE 754 double 512, so that non-negative
/// doubles can be scored by their bit patterns, which are ordered as the
/// doubles are.
pub const ZMP_THRESHOLD: u64 = 0x4080_0000_0000_0000;

/// A score above which the best predictor is given up and the macroblock
/// is coded by itself: the bit pattern of the IEEE 754 double 4096.
pub const NEW_THRESHOLD: u64 = 0x40B0_0000_0000_0000;

/// One predictor that was tried: its motion and what it costs.
#[derive(Clone, Copy, Debug, PartialEq, Eq, Structural)]
pub struct Candidate {
    pub dx: i32,
    pub dy: i32,
    pub score: u64,
}

/// The best of `best` and the candidates: the first of them that has the
/// least score.
pub open spec fn best_of(candidates: Seq<Candidate>, best: Candidate) -> Candidate
    decreases candidates.len(),
{
    if candidates.len() == 0 {
        best
    } else if candidates[0].score < best.score {
        best_of(candidates.skip(1), candidates[0])
    } else {
        best_of(candidates.skip(1), best)
    }
}

/// The cell of a macroblock by the fast policy. Where the predictor at the
/// macroblock's own place scores no more than `ZMP_THRESHOLD`, it is taken.
/// Else the best candidate is taken, the predictor at the own place
/// counting as the first; unless even that one scores more than
/// `NEW_THRESHOLD`, and the macroblock is coded by itself.
pub open spec fn fast_cell(zero_score: u64, candidates: Seq<Candidate>) -> BlockType {
    if zero_score <= ZMP_THRESHOLD {
        BlockType::Motion(0, 0)
    } else {
        let best = best_of(candidates, Candidate { dx: 0, dy: 0, score: zero_score });
        if best.score > NEW_THRESHOLD {
            BlockType::New
        } else {
            BlockType::Motion(best.dx, best.dy)
        }
    }
}

/// The cell of a macroblock by the rate-accurate policy: the candidate that
/// costs the fewest bits, or `New` where none costs fewer than coding the
/// macroblock by itself.
pub open spec fn ult_cell(intra_score: u64, candidates: Seq<Candidate>) -> BlockType {
    let best = best_of(candidates, Candidate { dx: 0, dy: 0, score: intra_score });
    if best.score < intra_score {
        BlockType::Motion(best.dx, best.dy)
    } else {
        BlockType::New
    }
}

/// The best is `best` or one of the candidates, none scores less, and every
/// candidate before it scores more.
pub proof fn lemma_best_of(candidates: Seq<Candidate>, best: Candidate)
    ensures
        best_of(candidates, best).score <= best.score,
        forall|k: int|
            0 <= k < candidates.len() ==> best_of(candidates, best).score <= (
            #[trigger] candidates[k]).score,
        best_of(candidates, best) == best || exists|k: int|
            0 <= k < candidates.len() && #[trigger] candidates[k] == best_of(candidates, best)
                && candidates[k].score < best.score && forall|j: int|
                0 <= j < k ==> (#[trigger] candidates[j]).score > candidates[k].score,
        best_of(candidates, best).score < best.score ==> best_of(candidates, best) != best,
    decreases candidates.len(),
{
    if candidates.len() > 0 {
        let tail = candidates.skip(1);
        let first = candidates[0];
        let start = if first.score < best.score {
            first
        } else {
            best
        };
        lemma_best_of(tail, start);
        let found = best_of(candidates, best);
        assert(found == best_of(tail, start));
        assert forall|k: int| 0 <= k < candidates.len() implies found.score <= (
        #[trigger] candidates[k]).score by {
            if k > 0 {
                assert(tail[k - 1] == candidates[k]);
            }
        }
        if found != best {
            if found == start {
                assert(candidates[0] == found);
            } else {
                let k = choose|k: int|
                    0 <= k < tail.len() && #[trigger] tail[k] == found && tail[k].score
                        < start.score && forall|j: int|
                        0 <= j < k ==> (#[trigger] tail[j]).score > tail[k].score;
                assert(candidates[k + 1] == found);
                assert forall|j: int| 0 <= j < k + 1 implies (#[trigger] candidates[j]).score
                    > candidates[k + 1].score by {
                    if j > 0 {
                        assert(tail[j - 1] == candidates[j]);
                    }
                }
            }
        }
    }
}

/// Whether every candidate moves by no more than the search radius.
pub open spec fn candidates_ok(candidates: Seq<Candidate>) -> bool {
    forall|k: int|
        0 <= k < candidates.len() ==> cell_ok(
            BlockType::Motion((#[trigger] candidates[k]).dx, candidates[k].dy),
        )
}

/// Candidates from within the search radius give cells that can be
/// serialized, by either policy.
pub proof fn lemma_cells_of_candidates(score: u64, candidates: Seq<Candidate>)
    requires
        candidates_ok(candidates),
    ensures
        cell_ok(fast_cell(score, candidates)),
        cell_ok(ult_cell(score, candidates)),
{
    lemma_best_of(candidates, Candidate { dx: 0, dy: 0, score });
}

/// The best of `best` and the candidates.
fn find_best(candidates: &[Candidate], best: Candidate) -> (found: Candidate)
    ensures
        found == best_of(candidates@, best),
{
    let mut found = best;
    let mut i: usize = 0;
    proof {
        assert(candidates@.skip(0) =~= candidates@);
    }
    while i < candidates.len()
        invariant
            0 <= i <= candidates@.len(),
            best_of(candidates@.skip(i as int), found) == best_of(candidates@, best),
        decreases candidates@.len() - i,
    {
        proof {
            assert(candidates@.skip(i as int)[0] == candidates@[i as int]);
            assert(candidates@.skip(i as int).skip(1) =~= candidates@.skip(i + 1));
        }
        if candidates[i].score < found.score {
            found = candidates[i];
        }
        i = i + 1;
    }
    found
}

/// The cell of a macroblock by the fast policy, from the score of the
/// predictor at its own place and the candidates in the order in which
/// they were tried.
pub fn classify_fast(zero_score: u64, candidates: &[Candidate]) -> (cell: BlockType)
    ensures
        cell == fast_cell(zero_score, candidates@),
{
    if zero_score <= ZMP_THRESHOLD {
        return BlockType::Motion(0, 0);
    }
    let best = find_best(candidates, Candidate { dx: 0, dy: 0, score: zero_score });
    if best.score > NEW_THRESHOLD {
        BlockType::New
    } else {
        BlockType::Motion(best.dx, best.dy)
    }
}

/// The cell of a macroblock by the rate-accurate policy, from the cost of
/// coding it by itself and the candidates in the order in which they were
/// tried.
pub fn classify_ult(intra_score: u64, candidates: &[Candidate]) -> (cell: BlockType)
    ensures
        cell == ult_cell(intra_score, candidates@),
{
    let best = find_best(candidates, Candidate { dx: 0, dy: 0, score: intra_score });
    if best.score < intra_score {
        BlockType::Motion(best.dx, best.dy)
    } else {
        BlockType::New
    }
}

impl MotionMap {
    /// Fills the map by the fast policy. For each cell, `zero_scores` holds
    /// the score of the predictor at the macroblock's own place, and
    /// `candidates` the predictors tried for it.
    pub fn calculate(&mut self, zero_scores: &[u64], candidates: &[Vec<Candidate>])
        requires
            zero_scores@.len() == old(self).vectors@.len(),
            candidates@.len() == old(self).vectors@.len(),
        ensures
            final(self).width == old(self).width,
            final(self).height == old(self).height,
            final(self).vectors@.len() == old(self).vectors@.len(),
            forall|i: int|
                0 <= i < final(self).vectors@.len() ==> #[trigger] final(self).vectors@[i]
                    == fast_cell(zero_scores@[i], candidates@[i]@),
    {
        let count = self.vectors.len();
        let mut i: usize = 0;
        while i < count
            invariant
                0 <= i <= count,
                count == self.vectors@.len(),
                count == zero_scores@.len(),
                count == candidates@.len(),
                self.width == old(self).width,
                self.height == old(self).height,
                forall|j: int|
                    0 <= j < i ==> #[trigger] self.vectors@[j] == fast_cell(
                        zero_scores@[j],
                        candidates@[j]@,
                    ),
            decreases count - i,
        {
            let cell = classify_fast(zero_scores[i], candidates[i].as_slice());
            self.vectors[i] = cell;
            i = i + 1;
        }
    }

    /// Fills the map by the rate-accurate policy. For each cell,
    /// `intra_scores` holds the cost of coding the macroblock by itself, and
    /// `candidates` the predictors tried for it with the cost of coding what
    /// each leaves.
    pub fn calculate_ult(&mut self, intra_scores: &[u64], candidates: &[Vec<Candidate>])
        requires
            intra_scores@.len() == old(self).vectors@.len(),
            candidates@.len() == old(self).vectors@.len(),
        ensures
            final(self).width == old(self).width,
            final(self).height == old(self).height,
            final(self).vectors@.len() == old(self).vectors@.len(),
            forall|i: int|
                0 <= i < final(self).vectors@.len() ==> #[trigger] final(self).vectors@[i]
                    == ult_cell(intra_scores@[i], candidates@[i]@),
    {
        let count = self.vectors.len();
        let mut i: usize = 0;
        while i < count
            invariant
                0 <= i <= count,
                count == self.vectors@.len(),
                count == intra_scores@.len(),
                count == candidates@.len(),
                self.width == old(self).width,
                self.height == old(self).height,
                forall|j: int|
                    0 <= j < i ==> #[trigger] self.vectors@[j] == ult_cell(
                        intra_scores@[j],
                        candidates@[j]@,
                    ),
            decreases count - i,
        {
            let cell = classify_ult(intra_scores[i], candidates[i].as_slice());
            self.vectors[i] = cell;
            i = i + 1;
        }
    }
}

} // verus!
