//! The binary layout of values with segments.
//!
//! A field that holds bytes is an eight-byte header, the position and the
//! length of its segment as little-endian `u32`, and the segment itself
//! further on in the buffer. Segments follow one another without gaps and
//! without overlap. A structure is a segment whose bytes are the headers of
//! its fields followed by their segments.

use crate::storage::copy_bytes;
use vstd::bytes::*;
use vstd::prelude::*;
use vstd::slice::*;

verus! {

/// The size of a field's header.
pub const HEADER_SIZE: u32 = 8;

/// Why a buffer does not hold a well-formed value.
#[derive(Clone, Copy, Debug, PartialEq, Eq, Structural)]
pub enum Error {
    /// The buffer ends before the header or the headers of the fields.
    UnexpectedlyShortPayload { actual_size: u64, minimum_size: u64 },
    /// The segment ends beyond the buffer.
    IncorrectSegmentReference { position: u64, value: u64 },
    /// The segment starts before the previous one ends.
    OverlappingSegment { last_end: u32, start: u32 },
    /// The segment starts after the previous one ends.
    SpaceBetweenSegments { last_end: u32, start: u32 },
    /// The structure's bytes do not end where its last segment ends.
    IncorrectStructSize { actual: u32, expected: u32 },
}

/// The `u32` stored at position `at`.
pub open spec fn u32_at(buffer: Seq<u8>, at: int) -> u32 {
    spec_u32_from_le_bytes(buffer.subrange(at, at + 4))
}

/// Where the segment of the field with header at `from` ends, given that
/// the segment before it ended at `latest_segment`; an empty segment takes
/// no room.
pub open spec fn segment_end(buffer: Seq<u8>, from: int, latest_segment: u32) -> Result<
    u32,
    Error,
> {
    if from + 8 > buffer.len() {
        Err(
            Error::UnexpectedlyShortPayload {
                actual_size: buffer.len() as u64,
                minimum_size: (from + 8) as u64,
            },
        )
    } else {
        let start = u32_at(buffer, from);
        let count = u32_at(buffer, from + 4);
        if count == 0 {
            Ok(latest_segment)
        } else if start < latest_segment {
            Err(Error::OverlappingSegment { last_end: latest_segment, start })
        } else if start > latest_segment {
            Err(Error::SpaceBetweenSegments { last_end: latest_segment, start })
        } else if start + count > buffer.len() || start + count > u32::MAX {
            Err(
                Error::IncorrectSegmentReference {
                    position: from as u64,
                    value: (start + count) as u64,
                },
            )
        } else {
            Ok((start + count) as u32)
        }
    }
}

/// The bytes of the segment of the field with header at `from`.
pub open spec fn segment_bytes(buffer: Seq<u8>, from: int) -> Seq<u8> {
    if u32_at(buffer, from + 4) == 0 {
        Seq::empty()
    } else {
        buffer.subrange(
            u32_at(buffer, from) as int,
            u32_at(buffer, from) + u32_at(buffer, from + 4),
        )
    }
}

/// Checks the two fields of a structure's bytes: the headers take sixteen
/// bytes, the segments follow, and the last one ends the structure.
pub open spec fn fields_check(body: Seq<u8>) -> Result<(), Error> {
    match segment_end(body, 0, 16) {
        Err(e) => Err(e),
        Ok(first_end) => match segment_end(body, 8, first_end) {
            Err(e) => Err(e),
            Ok(second_end) => if second_end != body.len() {
                Err(
                    Error::IncorrectStructSize {
                        actual: body.len() as u32,
                        expected: second_end,
                    },
                )
            } else {
                Ok(())
            },
        },
    }
}

/// Checks the structure whose header is at `from`: its segment must be in
/// place after `latest_segment`, and its bytes must hold two well-formed
/// fields. Gives the end of the structure's segment.
pub open spec fn struct_check(buffer: Seq<u8>, from: int, latest_segment: u32) -> Result<
    u32,
    Error,
> {
    match segment_end(buffer, from, latest_segment) {
        Err(e) => Err(e),
        Ok(end) => match fields_check(segment_bytes(buffer, from)) {
            Err(e) => Err(e),
            Ok(_) => Ok(end),
        },
    }
}

fn read_u32(buffer: &[u8], at: usize) -> (v: u32)
    requires
        at + 4 <= buffer@.len(),
    ensures
        v == u32_at(buffer@, at as int),
{
    let len: usize = buffer.len();
    assert(at + 4 <= len);
    u32_from_le_bytes(slice_subrange(buffer, at, at + 4))
}

/// Checks the segment of the field with header at `from`.
pub fn check_segment(buffer: &[u8], from: usize, latest_segment: u32) -> (r: Result<u32, Error>)
    requires
        from + 8 <= usize::MAX,
    ensures
        r == segment_end(buffer@, from as int, latest_segment),
{
    if from + 8 > buffer.len() {
        return Err(
            Error::UnexpectedlyShortPayload {
                actual_size: buffer.len() as u64,
                minimum_size: (from + 8) as u64,
            },
        );
    }
    let start = read_u32(buffer, from);
    let count = read_u32(buffer, from + 4);
    if count == 0 {
        return Ok(latest_segment);
    }
    if start < latest_segment {
        return Err(Error::OverlappingSegment { last_end: latest_segment, start });
    }
    if start > latest_segment {
        return Err(Error::SpaceBetweenSegments { last_end: latest_segment, start });
    }
    let end: u64 = start as u64 + count as u64;
    if end > buffer.len() as u64 || end > u32::MAX as u64 {
        return Err(Error::IncorrectSegmentReference { position: from as u64, value: end });
    }
    Ok(end as u32)
}

fn segment<'a>(buffer: &'a [u8], from: usize) -> (s: &'a [u8])
    requires
        from + 8 <= buffer@.len(),
        u32_at(buffer@, from + 4) != 0 ==> u32_at(buffer@, from as int) + u32_at(
            buffer@,
            from + 4,
        ) <= buffer@.len(),
    ensures
        s@ == segment_bytes(buffer@, from as int),
{
    let len: usize = buffer.len();
    assert(from + 8 <= len);
    let start = read_u32(buffer, from);
    let count = read_u32(buffer, from + 4);
    if count == 0 {
        let s = slice_subrange(buffer, 0, 0);
        assert(s@ =~= Seq::<u8>::empty());
        s
    } else {
        slice_subrange(buffer, start as usize, start as usize + count as usize)
    }
}

/// A structure of two fields that hold bytes.
#[derive(Clone, Debug, PartialEq, Eq)]
pub struct StructWithTwoSegments {
    first: Vec<u8>,
    second: Vec<u8>,
}

impl StructWithTwoSegments {
    /// The bytes of the first field.
    pub closed spec fn first_bytes(&self) -> Seq<u8> {
        self.first@
    }

    /// The bytes of the second field.
    pub closed spec fn second_bytes(&self) -> Seq<u8> {
        self.second@
    }

    /// The structure with these two fields.
    pub fn new(first: &[u8], second: &[u8]) -> (s: StructWithTwoSegments)
        ensures
            s.first_bytes() == first@,
            s.second_bytes() == second@,
    {
        StructWithTwoSegments { first: copy_bytes(first), second: copy_bytes(second) }
    }

    /// The first field.
    pub fn first(&self) -> (bytes: &[u8])
        ensures
            bytes@ == self.first_bytes(),
    {
        self.first.as_slice()
    }

    /// The second field.
    pub fn second(&self) -> (bytes: &[u8])
        ensures
            bytes@ == self.second_bytes(),
    {
        self.second.as_slice()
    }

    /// Checks the structure whose header is at `from`; gives the end of its
    /// segment, or the first fault found.
    pub fn check(buffer: &[u8], from: usize, latest_segment: u32) -> (r: Result<u32, Error>)
        requires
            from + 8 <= usize::MAX,
        ensures
            r == struct_check(buffer@, from as int, latest_segment),
    {
        let end = match check_segment(buffer, from, latest_segment) {
            Ok(end) => end,
            Err(e) => {
                return Err(e);
            },
        };
        let body = segment(buffer, from);
        let first_end = match check_segment(body, 0, 16) {
            Ok(e) => e,
            Err(e) => {
                return Err(e);
            },
        };
        let second_end = match check_segment(body, 8, first_end) {
            Ok(e) => e,
            Err(e) => {
                return Err(e);
            },
        };
        if second_end as usize != body.len() {
            return Err(
                Error::IncorrectStructSize { actual: body.len() as u32, expected: second_end },
            );
        }
        Ok(end)
    }

    /// Reads the structure whose header is at `from`, after checking it:
    /// its fields are the segments that its bytes name.
    pub fn read(buffer: &[u8], from: usize, latest_segment: u32) -> (r: Result<
        StructWithTwoSegments,
        Error,
    >)
        requires
            from + 8 <= usize::MAX,
        ensures
            match struct_check(buffer@, from as int, latest_segment) {
                Err(e) => r is Err && r->Err_0 == e,
                Ok(_) => r is Ok && r->Ok_0.first_bytes() == segment_bytes(
                    segment_bytes(buffer@, from as int),
                    0,
                ) && r->Ok_0.second_bytes() == segment_bytes(
                    segment_bytes(buffer@, from as int),
                    8,
                ),
            },
    {
        match StructWithTwoSegments::check(buffer, from, latest_segment) {
            Err(e) => Err(e),
            Ok(_) => {
                let body = segment(buffer, from);
                let first = segment(body, 0);
                let second = segment(body, 8);
                Ok(StructWithTwoSegments { first: copy_bytes(first), second: copy_bytes(second) })
            },
        }
    }
}

/// The buffer after `data` is written as the segment of the field with
/// header at `from`: the header names the old end of the buffer and the
/// length of the data, and the data follows the old contents.
pub open spec fn with_segment(buffer: Seq<u8>, from: int, data: Seq<u8>) -> Seq<u8> {
    buffer.subrange(0, from) + spec_u32_to_le_bytes(buffer.len() as u32) + spec_u32_to_le_bytes(
        data.len() as u32,
    ) + buffer.subrange(from + 8, buffer.len() as int) + data
}

/// Writes `data` as the segment of the field with header at `from`.
pub fn write_segment(data: &[u8], buffer: &mut Vec<u8>, from: usize)
    requires
        from + 8 <= old(buffer)@.len(),
        old(buffer)@.len() + data@.len() <= u32::MAX,
    ensures
        final(buffer)@ == with_segment(old(buffer)@, from as int, data@),
{
    let position = u32_to_le_bytes(buffer.len() as u32);
    let count = u32_to_le_bytes(data.len() as u32);
    proof {
        lemma_auto_spec_u32_to_from_le_bytes();
    }
    let mut k: usize = 0;
    while k < 4
        invariant
            k <= 4,
            from + 8 <= old(buffer)@.len(),
            old(buffer)@.len() <= u32::MAX,
            buffer@.len() == old(buffer)@.len(),
            position@.len() == 4,
            count@.len() == 4,
            forall|x: int|
                0 <= x < buffer@.len() ==> buffer@[x] == (if from <= x < from + k {
                    position@[x - from]
                } else if from + 4 <= x < from + 4 + k {
                    count@[x - from - 4]
                } else {
                    old(buffer)@[x]
                }),
        decreases 4 - k,
    {
        buffer.set(from + k, position[k]);
        buffer.set(from + 4 + k, count[k]);
        k += 1;
    }
    let mut tail = copy_bytes(data);
    buffer.append(&mut tail);
    assert(buffer@ =~= with_segment(old(buffer)@, from as int, data@));
}

} // verus!
