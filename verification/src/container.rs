//! The container: the fixed header, the quantization matrices, and the
//! frame records that follow, each behind its length.

use crate::endian::{
    append_bytes, le_of_u16, le_of_u32, lemma_le_bounds, lemma_le_round_trip_u16,
    lemma_le_round_trip_u32, read_u16_le, read_u32_le, u16_of_le, u32_of_le, write_u16_le,
    write_u32_le,
};
use crate::error::CodecError;
use crate::quant::QMatrices;
use crate::videocode::{record_body, record_bytes, section_bytes, FrameType};
use vstd::prelude::*;
use vstd::slice::slice_subrange;

verus! {

/// The first five bytes of every stream: `NRVC` and the version, 1.
pub const MAGIC: [u8; 5] = [0x4E, 0x52, 0x56, 0x43, 1];

/// The number of bytes before the metadata.
pub const HEADER_LEN: usize = 21;

/// What the header of a stream says. The frame rate is kept as the 32 bits
/// of its floating-point form.
#[derive(Clone, Copy, Debug, PartialEq, Eq, Structural)]
pub struct Header {
    pub width: u16,
    pub height: u16,
    pub fps_bits: u32,
    pub frame_count: u32,
    pub metadata_len: u32,
}

/// The twenty-one bytes of a header.
pub open spec fn header_bytes(header: Header) -> Seq<u8> {
    MAGIC@ + le_of_u16(header.width) + le_of_u16(header.height) + le_of_u32(header.fps_bits)
        + le_of_u32(header.frame_count) + le_of_u32(header.metadata_len)
}

/// The header that `data` starts with, or the reason why it starts with
/// none.
pub open spec fn parse_header(data: Seq<u8>) -> Result<Header, CodecError> {
    if data.len() < 5 {
        Err(CodecError::UnexpectedEof)
    } else if data.take(5) != MAGIC@ {
        Err(CodecError::BadMagic)
    } else if data.len() < 21 {
        Err(CodecError::UnexpectedEof)
    } else {
        Ok(
            Header {
                width: u16_of_le(data.subrange(5, 7)) as u16,
                height: u16_of_le(data.subrange(7, 9)) as u16,
                fps_bits: u32_of_le(data.subrange(9, 13)) as u32,
                frame_count: u32_of_le(data.subrange(13, 17)) as u32,
                metadata_len: u32_of_le(data.subrange(17, 21)) as u32,
            },
        )
    }
}

impl Header {
    /// Appends the twenty-one bytes of the header to `out`.
    pub fn write(&self, out: &mut Vec<u8>)
        ensures
            final(out)@ == old(out)@ + header_bytes(*self),
    {
        append_bytes(out, &MAGIC);
        append_bytes(out, &write_u16_le(self.width));
        append_bytes(out, &write_u16_le(self.height));
        append_bytes(out, &write_u32_le(self.fps_bits));
        append_bytes(out, &write_u32_le(self.frame_count));
        append_bytes(out, &write_u32_le(self.metadata_len));
        proof {
            assert(out@ =~= old(out)@ + header_bytes(*self));
        }
    }

    /// Reads the header that `data` starts with.
    pub fn read(data: &[u8]) -> (r: Result<Header, CodecError>)
        ensures
            r == parse_header(data@),
    {
        if data.len() < 5 {
            return Err(CodecError::UnexpectedEof);
        }
        let mut i: usize = 0;
        while i < 5
            invariant
                0 <= i <= 5,
                data@.len() >= 5,
                forall|j: int| 0 <= j < i ==> data@[j] == MAGIC@[j],
            decreases 5 - i,
        {
            if data[i] != MAGIC[i] {
                proof {
                    assert(data@.take(5)[i as int] != MAGIC@[i as int]);
                }
                return Err(CodecError::BadMagic);
            }
            i = i + 1;
        }
        proof {
            assert(data@.take(5) =~= MAGIC@);
        }
        if data.len() < HEADER_LEN {
            return Err(CodecError::UnexpectedEof);
        }
        Ok(
            Header {
                width: read_u16_le(slice_subrange(data, 5, 7)),
                height: read_u16_le(slice_subrange(data, 7, 9)),
                fps_bits: read_u32_le(slice_subrange(data, 9, 13)),
                frame_count: read_u32_le(slice_subrange(data, 13, 17)),
                metadata_len: read_u32_le(slice_subrange(data, 17, 21)),
            },
        )
    }
}

/// Reading the bytes of a header gives the header, whatever follows them.
pub proof fn lemma_header_round_trip(header: Header, rest: Seq<u8>)
    ensures
        header_bytes(header).len() == 21,
        parse_header(header_bytes(header) + rest) == Ok::<Header, CodecError>(header),
{
    let data = header_bytes(header) + rest;
    lemma_le_round_trip_u16(header.width);
    lemma_le_round_trip_u16(header.height);
    lemma_le_round_trip_u32(header.fps_bits);
    lemma_le_round_trip_u32(header.frame_count);
    lemma_le_round_trip_u32(header.metadata_len);
    assert(data.take(5) =~= MAGIC@);
    assert(data.subrange(5, 7) =~= le_of_u16(header.width));
    assert(data.subrange(7, 9) =~= le_of_u16(header.height));
    assert(data.subrange(9, 13) =~= le_of_u32(header.fps_bits));
    assert(data.subrange(13, 17) =~= le_of_u32(header.frame_count));
    assert(data.subrange(17, 21) =~= le_of_u32(header.metadata_len));
}

/// A run of bytes inside a stream.
#[derive(Clone, Copy, Debug, PartialEq, Eq, Structural)]
pub struct Section {
    pub start: usize,
    pub len: usize,
}

impl Section {
    /// The bytes of the section within `data`.
    pub open spec fn of(self, data: Seq<u8>) -> Seq<u8> {
        data.subrange(self.start as int, self.start + self.len)
    }

    /// Whether the section lies between `from` and `to`.
    pub open spec fn within(self, from: int, to: int) -> bool {
        from <= self.start && self.start + self.len <= to
    }
}

/// Where the parts of one frame record lie in a stream. A record of a type
/// that has no motion map for a support has an empty section in its place.
#[derive(Clone, Copy, Debug, PartialEq, Eq, Structural)]
pub struct FrameRecord {
    pub frame_type: FrameType,
    pub mprev: Section,
    pub mnext: Section,
    pub dct: Section,
    /// Where the next record starts.
    pub next: usize,
}

/// The section whose length prefix stands at `at`, inside a record that
/// ends at `end`.
pub open spec fn section_at(data: Seq<u8>, at: int, end: int) -> Result<Section, CodecError> {
    if at + 4 > end {
        Err(CodecError::UnexpectedEof)
    } else {
        let len = u32_of_le(data.subrange(at, at + 4));
        if at + 4 + len > end {
            Err(CodecError::LengthOverrun)
        } else {
            Ok(Section { start: (at + 4) as usize, len: len as usize })
        }
    }
}

/// The sections of a record of type `t` whose first section starts at `at`
/// and which ends at `end`.
#[verifier::opaque]
pub open spec fn sections_at(data: Seq<u8>, t: FrameType, at: int, end: int) -> Result<
    FrameRecord,
    CodecError,
> {
    let none = Section { start: at as usize, len: 0 };
    match t {
        FrameType::IFrame => match section_at(data, at, end) {
            Err(e) => Err(e),
            Ok(dct) => Ok(
                FrameRecord { frame_type: t, mprev: none, mnext: none, dct, next: end as usize },
            ),
        },
        FrameType::PFrame => match section_at(data, at, end) {
            Err(e) => Err(e),
            Ok(mprev) => match section_at(data, mprev.start + mprev.len, end) {
                Err(e) => Err(e),
                Ok(dct) => Ok(
                    FrameRecord {
                        frame_type: t,
                        mprev,
                        mnext: Section { start: (mprev.start + mprev.len) as usize, len: 0 },
                        dct,
                        next: end as usize,
                    },
                ),
            },
        },
        FrameType::BFrame => match section_at(data, at, end) {
            Err(e) => Err(e),
            Ok(mprev) => match section_at(data, mprev.start + mprev.len, end) {
                Err(e) => Err(e),
                Ok(mnext) => match section_at(data, mnext.start + mnext.len, end) {
                    Err(e) => Err(e),
                    Ok(dct) => Ok(
                        FrameRecord { frame_type: t, mprev, mnext, dct, next: end as usize },
                    ),
                },
            },
        },
    }
}

/// The type that a byte names.
pub open spec fn type_of_code(byte: u8) -> Option<FrameType> {
    if byte == 0 {
        Some(FrameType::IFrame)
    } else if byte == 1 {
        Some(FrameType::PFrame)
    } else if byte == 2 {
        Some(FrameType::BFrame)
    } else {
        None
    }
}

/// The frame record that starts at `start`, or the reason why there is
/// none: the stream ends inside the length or the record, the length
/// reaches beyond the stream, or the type is unknown.
#[verifier::opaque]
pub open spec fn parse_record(data: Seq<u8>, start: int) -> Result<FrameRecord, CodecError> {
    if start < 0 || start + 4 > data.len() {
        Err(CodecError::UnexpectedEof)
    } else {
        let size = u32_of_le(data.subrange(start, start + 4));
        let end = start + 4 + size;
        if end > data.len() {
            Err(CodecError::LengthOverrun)
        } else if size < 1 {
            Err(CodecError::UnexpectedEof)
        } else {
            match type_of_code(data[start + 4]) {
                None => Err(CodecError::UnknownFrameType),
                Some(t) => sections_at(data, t, start + 5, end),
            }
        }
    }
}

/// Reads the section whose length prefix stands at `at`, inside a record
/// that ends at `end`.
fn read_section(data: &[u8], at: usize, end: usize) -> (r: Result<Section, CodecError>)
    requires
        at <= end <= data@.len(),
    ensures
        r == section_at(data@, at as int, end as int),
        r is Ok ==> r->Ok_0.within(at + 4, end as int),
{
    if end - at < 4 {
        return Err(CodecError::UnexpectedEof);
    }
    let len = read_u32_le(slice_subrange(data, at, at + 4)) as usize;
    proof {
        lemma_le_bounds(data@.subrange(at as int, at + 4));
    }
    if len > end - at - 4 {
        return Err(CodecError::LengthOverrun);
    }
    Ok(Section { start: at + 4, len })
}

impl FrameRecord {
    /// Finds the frame record that starts at `start`. On success `next` is
    /// the start of the record that follows: `start + 4` and the length
    /// that the record announces.
    pub fn read(data: &[u8], start: usize) -> (r: Result<FrameRecord, CodecError>)
        ensures
            r == parse_record(data@, start as int),
            r is Ok ==> {
                let record = r->Ok_0;
                &&& record.next == start + 4 + u32_of_le(data@.subrange(start as int, start + 4))
                &&& record.next <= data@.len()
                &&& record.mprev.within(start + 5, record.next as int)
                &&& record.mnext.within(start + 5, record.next as int)
                &&& record.dct.within(start + 5, record.next as int)
                &&& record.frame_type.spec_code() == data@[start + 4]
            },
    {
        proof {
            reveal(parse_record);
            reveal(sections_at);
        }
        if start > data.len() || data.len() - start < 4 {
            return Err(CodecError::UnexpectedEof);
        }
        let size = read_u32_le(slice_subrange(data, start, start + 4)) as usize;
        proof {
            lemma_le_bounds(data@.subrange(start as int, start + 4));
        }
        if size > data.len() - start - 4 {
            return Err(CodecError::LengthOverrun);
        }
        let end = start + 4 + size;
        if size < 1 {
            return Err(CodecError::UnexpectedEof);
        }
        let frame_type = match FrameType::from_code(data[start + 4]) {
            None => {
                return Err(CodecError::UnknownFrameType);
            },
            Some(t) => t,
        };
        let at = start + 5;
        let none = Section { start: at, len: 0 };
        match frame_type {
            FrameType::IFrame => {
                let dct = match read_section(data, at, end) {
                    Ok(section) => section,
                    Err(e) => {
                        return Err(e);
                    },
                };
                Ok(FrameRecord { frame_type, mprev: none, mnext: none, dct, next: end })
            },
            FrameType::PFrame => {
                let mprev = match read_section(data, at, end) {
                    Ok(section) => section,
                    Err(e) => {
                        return Err(e);
                    },
                };
                let dct = match read_section(data, mprev.start + mprev.len, end) {
                    Ok(section) => section,
                    Err(e) => {
                        return Err(e);
                    },
                };
                let mnext = Section { start: mprev.start + mprev.len, len: 0 };
                Ok(FrameRecord { frame_type, mprev, mnext, dct, next: end })
            },
            FrameType::BFrame => {
                let mprev = match read_section(data, at, end) {
                    Ok(section) => section,
                    Err(e) => {
                        return Err(e);
                    },
                };
                let mnext = match read_section(data, mprev.start + mprev.len, end) {
                    Ok(section) => section,
                    Err(e) => {
                        return Err(e);
                    },
                };
                let dct = match read_section(data, mnext.start + mnext.len, end) {
                    Ok(section) => section,
                    Err(e) => {
                        return Err(e);
                    },
                };
                Ok(FrameRecord { frame_type, mprev, mnext, dct, next: end })
            },
        }
    }
}

/// A section that was written at `at` is found there, with its payload.
proof fn lemma_section_round_trip(data: Seq<u8>, at: int, end: int, payload: Seq<u8>)
    requires
        0 <= at,
        at + 4 + payload.len() <= end <= data.len(),
        end <= usize::MAX,
        payload.len() <= 0xFFFF_FFFF,
        data.subrange(at, at + 4 + payload.len()) == section_bytes(payload),
    ensures
        section_at(data, at, end) == Ok::<Section, CodecError>(
            Section { start: (at + 4) as usize, len: payload.len() as usize },
        ),
        data.subrange(at + 4, at + 4 + payload.len()) == payload,
{
    let written = data.subrange(at, at + 4 + payload.len());
    lemma_le_round_trip_u32(payload.len() as u32);
    assert(data.subrange(at, at + 4) =~= written.subrange(0, 4));
    assert(written.subrange(0, 4) =~= le_of_u32(payload.len() as u32));
    let size = payload.len() as int;
    assert(data.subrange(at + 4, at + 4 + size) =~= written.subrange(4, 4 + size));
    assert(written.subrange(4, 4 + size) =~= payload);
}

/// Behind the length and the type byte of a record that was written into
/// a stream, its sections are to be found.
proof fn lemma_record_start(pre: Seq<u8>, t: FrameType, body: Seq<u8>, post: Seq<u8>)
    requires
        1 <= body.len() <= 0xFFFF_FFFF,
        body[0] == t.spec_code(),
    ensures
        ({
            let data = pre + (le_of_u32(body.len() as u32) + body) + post;
            let start = pre.len() as int;
            &&& parse_record(data, start) == sections_at(
                data,
                t,
                start + 5,
                start + 4 + body.len(),
            )
            &&& data.subrange(start + 4, start + 4 + body.len()) == body
            &&& data.len() == pre.len() + 4 + body.len() + post.len()
        }),
{
    let data = pre + (le_of_u32(body.len() as u32) + body) + post;
    let start = pre.len() as int;
    reveal(parse_record);
    lemma_le_round_trip_u32(body.len() as u32);
    assert(data.subrange(start, start + 4) =~= le_of_u32(body.len() as u32));
    assert(data[start + 4] == body[0]);
    assert(data.subrange(start + 4, start + 4 + body.len()) =~= body);
}

/// A section found inside a part of a stream.
proof fn lemma_section_in_body(
    data: Seq<u8>,
    body: Seq<u8>,
    from: int,
    offset: int,
    payload: Seq<u8>,
)
    requires
        0 <= from,
        0 <= offset,
        from + body.len() <= data.len() <= usize::MAX,
        data.subrange(from, from + body.len()) == body,
        offset + 4 + payload.len() <= body.len(),
        payload.len() <= 0xFFFF_FFFF,
        body.subrange(offset, offset + 4 + payload.len()) == section_bytes(payload),
    ensures
        section_at(data, from + offset, from + body.len()) == Ok::<Section, CodecError>(
            Section { start: (from + offset + 4) as usize, len: payload.len() as usize },
        ),
        data.subrange(from + offset + 4, from + offset + 4 + payload.len()) == payload,
{
    let size = payload.len() as int;
    assert(data.subrange(from + offset, from + offset + 4 + size) =~= body.subrange(
        offset,
        offset + 4 + size,
    ));
    lemma_section_round_trip(data, from + offset, from + body.len(), payload);
}

/// A record of a frame coded by itself is found where it was written, with
/// its coded blocks, and the next record starts right behind it.
pub proof fn lemma_i_record_round_trip(pre: Seq<u8>, dct: Seq<u8>, post: Seq<u8>)
    requires
        5 + dct.len() <= 0xFFFF_FFFF,
        pre.len() + 9 + dct.len() + post.len() <= usize::MAX,
    ensures
        ({
            let empty = Seq::<u8>::empty();
            let data = pre + record_bytes(FrameType::IFrame, empty, empty, dct) + post;
            let found = parse_record(data, pre.len() as int);
            &&& found is Ok
            &&& found->Ok_0.frame_type == FrameType::IFrame
            &&& found->Ok_0.next == pre.len() + 9 + dct.len()
            &&& found->Ok_0.dct.of(data) == dct
        }),
{
    let t = FrameType::IFrame;
    let empty = Seq::<u8>::empty();
    let body = record_body(t, empty, empty, dct);
    let data = pre + record_bytes(t, empty, empty, dct) + post;
    lemma_le_round_trip_u32(dct.len() as u32);
    assert(body.len() == 5 + dct.len());
    reveal(sections_at);
    lemma_record_start(pre, t, body, post);
    let from = pre.len() as int + 4;
    let last = dct.len() as int;
    assert(body.subrange(1, 1 + 4 + last) =~= section_bytes(dct));
    lemma_section_in_body(data, body, from, 1, dct);
}

/// The layout of the body of a record with one motion map.
proof fn lemma_p_body_layout(mprev: Seq<u8>, dct: Seq<u8>)
    ensures
        ({
            let body = record_body(FrameType::PFrame, mprev, Seq::empty(), dct);
            let first = mprev.len() as int;
            let last = dct.len() as int;
            &&& body.len() == 9 + first + last
            &&& body[0] == FrameType::PFrame.spec_code()
            &&& body.subrange(1, 5 + first) == section_bytes(mprev)
            &&& body.subrange(5 + first, 9 + first + last) == section_bytes(dct)
        }),
{
    let body = record_body(FrameType::PFrame, mprev, Seq::empty(), dct);
    let first = mprev.len() as int;
    let last = dct.len() as int;
    lemma_le_round_trip_u32(dct.len() as u32);
    lemma_le_round_trip_u32(mprev.len() as u32);
    assert(body.subrange(1, 5 + first) =~= section_bytes(mprev));
    assert(body.subrange(5 + first, 9 + first + last) =~= section_bytes(dct));
}

/// The layout of the body of a record with two motion maps.
proof fn lemma_b_body_layout(mprev: Seq<u8>, mnext: Seq<u8>, dct: Seq<u8>)
    ensures
        ({
            let body = record_body(FrameType::BFrame, mprev, mnext, dct);
            let first = mprev.len() as int;
            let second = mnext.len() as int;
            let last = dct.len() as int;
            &&& body.len() == 13 + first + second + last
            &&& body[0] == FrameType::BFrame.spec_code()
            &&& body.subrange(1, 5 + first) == section_bytes(mprev)
            &&& body.subrange(5 + first, 9 + first + second) == section_bytes(mnext)
            &&& body.subrange(9 + first + second, 13 + first + second + last) == section_bytes(
                dct,
            )
        }),
{
    let body = record_body(FrameType::BFrame, mprev, mnext, dct);
    let first = mprev.len() as int;
    let second = mnext.len() as int;
    let last = dct.len() as int;
    lemma_le_round_trip_u32(dct.len() as u32);
    lemma_le_round_trip_u32(mprev.len() as u32);
    lemma_le_round_trip_u32(mnext.len() as u32);
    assert(body.subrange(1, 5 + first) =~= section_bytes(mprev));
    assert(body.subrange(5 + first, 9 + first + second) =~= section_bytes(mnext));
    assert(body.subrange(9 + first + second, 13 + first + second + last) =~= section_bytes(dct));
}

/// The sections of a record with one motion map, from where each was found.
proof fn lemma_p_sections(data: Seq<u8>, at: int, end: int, mprev: Section, dct: Section)
    requires
        section_at(data, at, end) == Ok::<Section, CodecError>(mprev),
        section_at(data, mprev.start + mprev.len, end) == Ok::<Section, CodecError>(dct),
    ensures
        sections_at(data, FrameType::PFrame, at, end) is Ok,
        sections_at(data, FrameType::PFrame, at, end)->Ok_0.frame_type == FrameType::PFrame,
        sections_at(data, FrameType::PFrame, at, end)->Ok_0.mprev == mprev,
        sections_at(data, FrameType::PFrame, at, end)->Ok_0.dct == dct,
        sections_at(data, FrameType::PFrame, at, end)->Ok_0.next == end as usize,
{
    reveal(sections_at);
}

/// The sections of a record with two motion maps, from where each was
/// found.
proof fn lemma_b_sections(
    data: Seq<u8>,
    at: int,
    end: int,
    mprev: Section,
    mnext: Section,
    dct: Section,
)
    requires
        section_at(data, at, end) == Ok::<Section, CodecError>(mprev),
        section_at(data, mprev.start + mprev.len, end) == Ok::<Section, CodecError>(mnext),
        section_at(data, mnext.start + mnext.len, end) == Ok::<Section, CodecError>(dct),
    ensures
        sections_at(data, FrameType::BFrame, at, end) is Ok,
        sections_at(data, FrameType::BFrame, at, end)->Ok_0.frame_type == FrameType::BFrame,
        sections_at(data, FrameType::BFrame, at, end)->Ok_0.mprev == mprev,
        sections_at(data, FrameType::BFrame, at, end)->Ok_0.mnext == mnext,
        sections_at(data, FrameType::BFrame, at, end)->Ok_0.dct == dct,
        sections_at(data, FrameType::BFrame, at, end)->Ok_0.next == end as usize,
{
    reveal(sections_at);
}

/// A record of a frame predicted from one support is found where it was
/// written, with its motion map and its coded blocks.
pub proof fn lemma_p_record_round_trip(pre: Seq<u8>, mprev: Seq<u8>, dct: Seq<u8>, post: Seq<u8>)
    requires
        9 + mprev.len() + dct.len() <= 0xFFFF_FFFF,
        pre.len() + 13 + mprev.len() + dct.len() + post.len() <= usize::MAX,
    ensures
        ({
            let data = pre + record_bytes(FrameType::PFrame, mprev, Seq::empty(), dct) + post;
            let found = parse_record(data, pre.len() as int);
            &&& found is Ok
            &&& found->Ok_0.frame_type == FrameType::PFrame
            &&& found->Ok_0.next == pre.len() + 13 + mprev.len() + dct.len()
            &&& found->Ok_0.mprev.of(data) == mprev
            &&& found->Ok_0.dct.of(data) == dct
        }),
{
    let t = FrameType::PFrame;
    let body = record_body(t, mprev, Seq::empty(), dct);
    let data = pre + (le_of_u32(body.len() as u32) + body) + post;
    let from = pre.len() as int + 4;
    let first = mprev.len() as int;
    let last = dct.len() as int;
    lemma_p_body_layout(mprev, dct);
    lemma_record_start(pre, t, body, post);
    lemma_section_in_body(data, body, from, 1, mprev);
    lemma_section_in_body(data, body, from, 5 + first, dct);
    lemma_p_sections(
        data,
        from + 1,
        from + body.len(),
        Section { start: (from + 5) as usize, len: first as usize },
        Section { start: (from + 9 + first) as usize, len: last as usize },
    );
}

/// A record of a frame predicted from two supports is found where it was
/// written, with both motion maps and its coded blocks.
pub proof fn lemma_b_record_round_trip(
    pre: Seq<u8>,
    mprev: Seq<u8>,
    mnext: Seq<u8>,
    dct: Seq<u8>,
    post: Seq<u8>,
)
    requires
        13 + mprev.len() + mnext.len() + dct.len() <= 0xFFFF_FFFF,
        pre.len() + 17 + mprev.len() + mnext.len() + dct.len() + post.len() <= usize::MAX,
    ensures
        ({
            let data = pre + record_bytes(FrameType::BFrame, mprev, mnext, dct) + post;
            let found = parse_record(data, pre.len() as int);
            &&& found is Ok
            &&& found->Ok_0.frame_type == FrameType::BFrame
            &&& found->Ok_0.next == pre.len() + 17 + mprev.len() + mnext.len() + dct.len()
            &&& found->Ok_0.mprev.of(data) == mprev
            &&& found->Ok_0.mnext.of(data) == mnext
            &&& found->Ok_0.dct.of(data) == dct
        }),
{
    let t = FrameType::BFrame;
    let body = record_body(t, mprev, mnext, dct);
    let data = pre + (le_of_u32(body.len() as u32) + body) + post;
    let from = pre.len() as int + 4;
    let first = mprev.len() as int;
    let second = mnext.len() as int;
    let last = dct.len() as int;
    lemma_b_body_layout(mprev, mnext, dct);
    lemma_record_start(pre, t, body, post);
    lemma_section_in_body(data, body, from, 1, mprev);
    lemma_section_in_body(data, body, from, 5 + first, mnext);
    lemma_section_in_body(data, body, from, 9 + first + second, dct);
    lemma_b_sections(
        data,
        from + 1,
        from + body.len(),
        Section { start: (from + 5) as usize, len: first as usize },
        Section { start: (from + 9 + first) as usize, len: second as usize },
        Section { start: (from + 13 + first + second) as usize, len: last as usize },
    );
}

/// What stands before the frame records of a stream.
#[derive(Clone, Copy, Debug)]
pub struct StreamStart {
    pub header: Header,
    /// The matrices for frames coded by themselves.
    pub i_matrices: QMatrices,
    /// The matrices for predicted frames.
    pub pb_matrices: QMatrices,
    /// Where the first frame record starts.
    pub frames_start: usize,
}

/// The bytes before the frame records: the header, the metadata, and the
/// two pairs of matrices.
pub open spec fn stream_start_bytes(
    header: Header,
    metadata: Seq<u8>,
    i_matrices: QMatrices,
    pb_matrices: QMatrices,
) -> Seq<u8> {
    header_bytes(header) + metadata + i_matrices.bytes() + pb_matrices.bytes()
}

impl StreamStart {
    /// Appends the header, the metadata and the matrices to `out`.
    pub fn write(
        header: &Header,
        metadata: &[u8],
        i_matrices: &QMatrices,
        pb_matrices: &QMatrices,
        out: &mut Vec<u8>,
    )
        requires
            metadata@.len() == header.metadata_len,
        ensures
            final(out)@ == old(out)@ + stream_start_bytes(
                *header,
                metadata@,
                *i_matrices,
                *pb_matrices,
            ),
    {
        header.write(out);
        append_bytes(out, metadata);
        i_matrices.write(out);
        pb_matrices.write(out);
        proof {
            assert(out@ =~= old(out)@ + stream_start_bytes(
                *header,
                metadata@,
                *i_matrices,
                *pb_matrices,
            ));
        }
    }

    /// Reads what stands before the frame records. The metadata is passed
    /// over. Fails where the header is none, where the metadata would reach
    /// beyond the stream, or where the stream ends inside the matrices.
    pub fn read(data: &[u8]) -> (r: Result<StreamStart, CodecError>)
        ensures
            match parse_header(data@) {
                Err(e) => r == Err::<StreamStart, CodecError>(e),
                Ok(header) => {
                    let matrices = 21 + header.metadata_len;
                    if matrices > data@.len() {
                        r == Err::<StreamStart, CodecError>(CodecError::LengthOverrun)
                    } else if matrices + 256 > data@.len() {
                        r == Err::<StreamStart, CodecError>(CodecError::UnexpectedEof)
                    } else {
                        &&& r is Ok
                        &&& r->Ok_0.header == header
                        &&& r->Ok_0.frames_start == matrices + 256
                        &&& r->Ok_0.i_matrices.bytes() == data@.subrange(matrices, matrices + 128)
                        &&& r->Ok_0.pb_matrices.bytes() == data@.subrange(
                            matrices + 128,
                            matrices + 256,
                        )
                    }
                },
            },
    {
        let header = match Header::read(data) {
            Ok(header) => header,
            Err(e) => {
                return Err(e);
            },
        };
        let metadata_len = header.metadata_len as usize;
        if metadata_len > data.len() - HEADER_LEN {
            return Err(CodecError::LengthOverrun);
        }
        let matrices = HEADER_LEN + metadata_len;
        if data.len() - matrices < 256 {
            return Err(CodecError::UnexpectedEof);
        }
        let i_matrices = match QMatrices::read(slice_subrange(data, matrices, matrices + 128)) {
            Ok(q) => q,
            Err(e) => {
                return Err(e);
            },
        };
        let pb_matrices = match QMatrices::read(
            slice_subrange(data, matrices + 128, matrices + 256),
        ) {
            Ok(q) => q,
            Err(e) => {
                return Err(e);
            },
        };
        proof {
            assert(data@.subrange(matrices as int, matrices + 128).take(128) =~= data@.subrange(
                matrices as int,
                matrices + 128,
            ));
            assert(data@.subrange(matrices + 128, matrices + 256).take(128) =~= data@.subrange(
                matrices + 128,
                matrices + 256,
            ));
        }
        Ok(StreamStart { header, i_matrices, pb_matrices, frames_start: matrices + 256 })
    }
}

/// The records of the `remaining` frames that follow each other from `at`
/// on, after the records `done`: each record starts where the one before
/// ends.
pub open spec fn records_from(data: Seq<u8>, at: int, remaining: int, done: Seq<FrameRecord>) -> Result<
    Seq<FrameRecord>,
    CodecError,
>
    decreases remaining,
{
    if remaining <= 0 {
        Ok(done)
    } else {
        match parse_record(data, at) {
            Err(e) => Err(e),
            Ok(record) => records_from(data, record.next as int, remaining - 1, done.push(record)),
        }
    }
}

/// Finds the records of `count` frames, the first of which starts at
/// `start`.
pub fn walk_records(data: &[u8], start: usize, count: u32) -> (r: Result<
    Vec<FrameRecord>,
    CodecError,
>)
    ensures
        match records_from(data@, start as int, count as int, Seq::empty()) {
            Err(e) => r is Err && r->Err_0 == e,
            Ok(records) => r is Ok && r->Ok_0@ == records && records.len() == count,
        },
{
    let mut records: Vec<FrameRecord> = Vec::new();
    let mut at = start;
    let mut found: u32 = 0;
    while found < count
        invariant
            0 <= found <= count,
            records@.len() == found,
            records_from(data@, at as int, count - found, records@) == records_from(
                data@,
                start as int,
                count as int,
                Seq::empty(),
            ),
        decreases count - found,
    {
        let record = match FrameRecord::read(data, at) {
            Ok(record) => record,
            Err(e) => {
                return Err(e);
            },
        };
        records.push(record);
        at = record.next;
        found = found + 1;
    }
    Ok(records)
}

} // verus!
