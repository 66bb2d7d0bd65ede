//! Segments: the pieces that a container is made of.
//!
//! Every segment starts with a header of 32 bytes: a tag of 16 bytes that
//! names the kind of the segment, the size that is set aside for its
//! payload, and the size that the payload uses of it, both as 64-bit
//! numbers. The payload follows the header. What is set aside may be more
//! than what is used, so that a payload can grow where it stands.

use crate::error::LibCZIApiError;
use crate::stream::{write_spec, OutputStream};
use crate::wire::{
    get_u64, has_bytes_at, lemma_u64_field, put_slice, put_u64, put_zeros, u64_at, u64_bytes, zeros,
};
use vstd::prelude::*;

verus! {

/// How many bytes the header of a segment takes.
pub const SEGMENT_HEADER_SIZE: usize = 32;

/// How many bytes the tag of a segment takes.
pub const SEGMENT_TAG_SIZE: usize = 16;

/// The largest size that a header can state: the largest signed 64-bit
/// number.
pub const MAX_SEGMENT_SIZE: u64 = 0x7fff_ffff_ffff_ffff;

/// The kinds of segments.
#[derive(Clone, Copy, Debug, PartialEq, Eq, Structural)]
pub enum SegmentKind {
    /// The file header, which is the first segment of every container.
    FileHeader,
    /// The directory of the sub-blocks.
    SubBlockDirectory,
    /// One sub-block.
    SubBlock,
    /// The metadata of the document.
    Metadata,
    /// One attachment.
    Attachment,
    /// The directory of the attachments.
    AttachmentDirectory,
    /// Room that is set aside or was given up.
    Deleted,
}

/// What the header of a segment says.
#[derive(Clone, Copy, Debug, PartialEq, Eq, Structural)]
pub struct SegmentHeader {
    pub kind: SegmentKind,
    /// How many bytes are set aside for the payload.
    pub allocated_size: u64,
    /// How many of them the payload uses.
    pub used_size: u64,
}

impl SegmentKind {
    /// The tag that names the kind: its name in capital letters, filled up
    /// with zero bytes.
    pub open spec fn tag_spec(self) -> Seq<u8> {
        match self {
            SegmentKind::FileHeader => seq![
                90u8, 73u8, 83u8, 82u8, 65u8, 87u8, 70u8, 73u8, 76u8, 69u8, 0u8, 0u8, 0u8, 0u8, 0u8, 0u8,
            ],
            SegmentKind::SubBlockDirectory => seq![
                90u8, 73u8, 83u8, 82u8, 65u8, 87u8, 68u8, 73u8, 82u8, 69u8, 67u8, 84u8, 79u8, 82u8, 89u8,
                0u8,
            ],
            SegmentKind::SubBlock => seq![
                90u8, 73u8, 83u8, 82u8, 65u8, 87u8, 83u8, 85u8, 66u8, 66u8, 76u8, 79u8, 67u8, 75u8, 0u8, 0u8,
            ],
            SegmentKind::Metadata => seq![
                90u8, 73u8, 83u8, 82u8, 65u8, 87u8, 77u8, 69u8, 84u8, 65u8, 68u8, 65u8, 84u8, 65u8, 0u8, 0u8,
            ],
            SegmentKind::Attachment => seq![
                90u8, 73u8, 83u8, 82u8, 65u8, 87u8, 65u8, 84u8, 84u8, 65u8, 67u8, 72u8, 0u8, 0u8, 0u8, 0u8,
            ],
            SegmentKind::AttachmentDirectory => seq![
                90u8, 73u8, 83u8, 82u8, 65u8, 87u8, 65u8, 84u8, 84u8, 68u8, 73u8, 82u8, 0u8, 0u8, 0u8, 0u8,
            ],
            SegmentKind::Deleted => seq![
                68u8, 69u8, 76u8, 69u8, 84u8, 69u8, 68u8, 0u8, 0u8, 0u8, 0u8, 0u8, 0u8, 0u8, 0u8, 0u8,
            ],
        }
    }

    /// The kind that a tag names, if it names one.
    pub open spec fn of_tag(tag: Seq<u8>) -> Option<SegmentKind> {
        if tag == SegmentKind::FileHeader.tag_spec() {
            Some(SegmentKind::FileHeader)
        } else if tag == SegmentKind::SubBlockDirectory.tag_spec() {
            Some(SegmentKind::SubBlockDirectory)
        } else if tag == SegmentKind::SubBlock.tag_spec() {
            Some(SegmentKind::SubBlock)
        } else if tag == SegmentKind::Metadata.tag_spec() {
            Some(SegmentKind::Metadata)
        } else if tag == SegmentKind::Attachment.tag_spec() {
            Some(SegmentKind::Attachment)
        } else if tag == SegmentKind::AttachmentDirectory.tag_spec() {
            Some(SegmentKind::AttachmentDirectory)
        } else if tag == SegmentKind::Deleted.tag_spec() {
            Some(SegmentKind::Deleted)
        } else {
            None
        }
    }

    /// The tag that names the kind.
    pub fn tag(&self) -> (tag: [u8; 16])
        ensures
            tag@ == self.tag_spec(),
    {
        let tag: [u8; 16] = match self {
            SegmentKind::FileHeader => [90, 73, 83, 82, 65, 87, 70, 73, 76, 69, 0, 0, 0, 0, 0, 0],
            SegmentKind::SubBlockDirectory => [
                90,
                73,
                83,
                82,
                65,
                87,
                68,
                73,
                82,
                69,
                67,
                84,
                79,
                82,
                89,
                0,
            ],
            SegmentKind::SubBlock => [90, 73, 83, 82, 65, 87, 83, 85, 66, 66, 76, 79, 67, 75, 0, 0],
            SegmentKind::Metadata => [90, 73, 83, 82, 65, 87, 77, 69, 84, 65, 68, 65, 84, 65, 0, 0],
            SegmentKind::Attachment => [90, 73, 83, 82, 65, 87, 65, 84, 84, 65, 67, 72, 0, 0, 0, 0],
            SegmentKind::AttachmentDirectory => [
                90,
                73,
                83,
                82,
                65,
                87,
                65,
                84,
                84,
                68,
                73,
                82,
                0,
                0,
                0,
                0,
            ],
            SegmentKind::Deleted => [68, 69, 76, 69, 84, 69, 68, 0, 0, 0, 0, 0, 0, 0, 0, 0],
        };
        assert(tag@ =~= self.tag_spec());
        tag
    }
}

/// Every tag has 16 bytes, and names its kind and no other.
pub proof fn lemma_tags(kind: SegmentKind)
    ensures
        kind.tag_spec().len() == 16,
        SegmentKind::of_tag(kind.tag_spec()) == Some(kind),
{
    assert(SegmentKind::FileHeader.tag_spec()[6] == 70);
    assert(SegmentKind::SubBlockDirectory.tag_spec()[6] == 68);
    assert(SegmentKind::SubBlock.tag_spec()[6] == 83);
    assert(SegmentKind::Metadata.tag_spec()[6] == 77);
    assert(SegmentKind::Attachment.tag_spec()[6] == 65);
    assert(SegmentKind::Attachment.tag_spec()[9] == 65);
    assert(SegmentKind::AttachmentDirectory.tag_spec()[6] == 65);
    assert(SegmentKind::AttachmentDirectory.tag_spec()[9] == 68);
    assert(SegmentKind::Deleted.tag_spec()[6] == 68);
    assert(SegmentKind::Deleted.tag_spec()[0] == 68);
    assert(SegmentKind::SubBlockDirectory.tag_spec()[0] == 90);
}

/// The kind that the tag at `pos` names, if it names one.
pub fn kind_at(bytes: &[u8], pos: usize) -> (kind: Option<SegmentKind>)
    requires
        pos + 16 <= bytes@.len(),
    ensures
        kind == SegmentKind::of_tag(bytes@.subrange(pos as int, pos + 16)),
{
    proof {
        lemma_tags(SegmentKind::FileHeader);
        lemma_tags(SegmentKind::SubBlockDirectory);
        lemma_tags(SegmentKind::SubBlock);
        lemma_tags(SegmentKind::Metadata);
        lemma_tags(SegmentKind::Attachment);
        lemma_tags(SegmentKind::AttachmentDirectory);
        lemma_tags(SegmentKind::Deleted);
    }
    if has_bytes_at(bytes, pos, SegmentKind::FileHeader.tag().as_slice()) {
        Some(SegmentKind::FileHeader)
    } else if has_bytes_at(bytes, pos, SegmentKind::SubBlockDirectory.tag().as_slice()) {
        Some(SegmentKind::SubBlockDirectory)
    } else if has_bytes_at(bytes, pos, SegmentKind::SubBlock.tag().as_slice()) {
        Some(SegmentKind::SubBlock)
    } else if has_bytes_at(bytes, pos, SegmentKind::Metadata.tag().as_slice()) {
        Some(SegmentKind::Metadata)
    } else if has_bytes_at(bytes, pos, SegmentKind::Attachment.tag().as_slice()) {
        Some(SegmentKind::Attachment)
    } else if has_bytes_at(bytes, pos, SegmentKind::AttachmentDirectory.tag().as_slice()) {
        Some(SegmentKind::AttachmentDirectory)
    } else if has_bytes_at(bytes, pos, SegmentKind::Deleted.tag().as_slice()) {
        Some(SegmentKind::Deleted)
    } else {
        None
    }
}

impl SegmentHeader {
    /// What a header may say: the sizes are signed 64-bit numbers that are
    /// not negative, and no more is used than is set aside.
    pub open spec fn is_valid_spec(self) -> bool {
        self.used_size <= self.allocated_size <= MAX_SEGMENT_SIZE
    }

    /// The 32 bytes of the header.
    pub open spec fn bytes_spec(self) -> Seq<u8> {
        self.kind.tag_spec() + u64_bytes(self.allocated_size) + u64_bytes(self.used_size)
    }

    /// What 32 bytes say as a header: `CorruptData` where the tag names no
    /// kind or the sizes are not what a header may say.
    pub open spec fn parse_spec(bytes: Seq<u8>) -> Result<SegmentHeader, LibCZIApiError> {
        match SegmentKind::of_tag(bytes.subrange(0, 16)) {
            None => Err(LibCZIApiError::CorruptData),
            Some(kind) => {
                let header = SegmentHeader {
                    kind,
                    allocated_size: u64_at(bytes, 16),
                    used_size: u64_at(bytes, 24),
                };
                if header.is_valid_spec() {
                    Ok(header)
                } else {
                    Err(LibCZIApiError::CorruptData)
                }
            },
        }
    }
}

/// A valid header is read back from its bytes.
pub proof fn lemma_header_round_trip(header: SegmentHeader)
    requires
        header.is_valid_spec(),
    ensures
        header.bytes_spec().len() == 32,
        SegmentHeader::parse_spec(header.bytes_spec()) == Ok::<SegmentHeader, LibCZIApiError>(
            header,
        ),
{
    let bytes = header.bytes_spec();
    lemma_tags(header.kind);
    crate::wire::lemma_number_bytes(0, 0, header.allocated_size);
    crate::wire::lemma_number_bytes(0, 0, header.used_size);
    assert(bytes.subrange(0, 16) == header.kind.tag_spec());
    assert(bytes.subrange(16, 24) == u64_bytes(header.allocated_size));
    assert(bytes.subrange(24, 32) == u64_bytes(header.used_size));
    lemma_u64_field(bytes, 16, header.allocated_size);
    lemma_u64_field(bytes, 24, header.used_size);
}

/// The header of the segment that starts at `offset` of a stream.
///
/// `Truncated` where the stream ends before the header does, or before what
/// the header sets aside; `CorruptData` where the bytes are no header.
pub open spec fn segment_at(stream: Seq<u8>, offset: int) -> Result<SegmentHeader, LibCZIApiError> {
    if offset < 0 || offset + 32 > stream.len() {
        Err(LibCZIApiError::Truncated)
    } else {
        match SegmentHeader::parse_spec(stream.subrange(offset, offset + 32)) {
            Err(e) => Err(e),
            Ok(header) => if offset + 32 + header.allocated_size > stream.len() {
                Err(LibCZIApiError::Truncated)
            } else {
                Ok(header)
            },
        }
    }
}

/// The header of the segment at `offset`, which must be of the given kind:
/// `CorruptData` where it is of another.
pub open spec fn segment_of_kind_at(stream: Seq<u8>, offset: int, kind: SegmentKind) -> Result<
    SegmentHeader,
    LibCZIApiError,
> {
    match segment_at(stream, offset) {
        Err(e) => Err(e),
        Ok(header) => if header.kind == kind {
            Ok(header)
        } else {
            Err(LibCZIApiError::CorruptData)
        },
    }
}

/// The payload of the segment at `offset`: the bytes that it uses.
pub open spec fn payload_at(stream: Seq<u8>, offset: int, header: SegmentHeader) -> Seq<u8> {
    stream.subrange(offset + 32, offset + 32 + header.used_size)
}

/// The bytes of a whole segment: the header, the payload, and zero bytes up
/// to the size that is set aside.
pub open spec fn segment_bytes(kind: SegmentKind, payload: Seq<u8>, allocated_size: u64) -> Seq<u8> {
    (SegmentHeader { kind, allocated_size, used_size: payload.len() as u64 }).bytes_spec() + payload
        + zeros((allocated_size - payload.len()) as nat)
}

/// The header of the segment that starts at `offset`.
pub fn read_segment(stream: &[u8], offset: u64) -> (header: Result<SegmentHeader, LibCZIApiError>)
    ensures
        header == segment_at(stream@, offset as int),
{
    let size: usize = stream.len();
    if offset > usize::MAX as u64 || size < 32 || offset as usize > size - 32 {
        return Err(LibCZIApiError::Truncated);
    }
    let start: usize = offset as usize;
    let ghost head = stream@.subrange(start as int, start + 32);
    let found = kind_at(stream, start);
    let allocated_size: u64 = get_u64(stream, start + 16);
    let used_size: u64 = get_u64(stream, start + 24);
    proof {
        assert(head.subrange(0, 16) == stream@.subrange(start as int, start + 16));
        assert(head.subrange(16, 24) == stream@.subrange(start + 16, start + 24));
        assert(head.subrange(24, 32) == stream@.subrange(start + 24, start + 32));
    }
    match found {
        None => Err(LibCZIApiError::CorruptData),
        Some(kind) => {
            if used_size > allocated_size || allocated_size > MAX_SEGMENT_SIZE {
                return Err(LibCZIApiError::CorruptData);
            }
            if allocated_size > (size - 32 - start) as u64 {
                return Err(LibCZIApiError::Truncated);
            }
            Ok(SegmentHeader { kind, allocated_size, used_size })
        },
    }
}

/// The header of the segment that starts at `offset`, which must be of the
/// given kind.
pub fn read_segment_of_kind(stream: &[u8], offset: u64, kind: SegmentKind) -> (header: Result<
    SegmentHeader,
    LibCZIApiError,
>)
    ensures
        header == segment_of_kind_at(stream@, offset as int, kind),
{
    match read_segment(stream, offset) {
        Err(e) => Err(e),
        Ok(header) => if header.kind == kind {
            Ok(header)
        } else {
            Err(LibCZIApiError::CorruptData)
        },
    }
}

/// What writing a segment gives: the number of bytes it takes, or
/// `InvalidArgument` where less is set aside than the payload needs or more
/// than a header can state, or `OutOfMemory` where the segment would end
/// farther than memory can reach.
pub open spec fn write_segment_spec(
    offset: u64,
    payload: Seq<u8>,
    allocated_size: u64,
) -> Result<u64, LibCZIApiError> {
    if payload.len() > allocated_size || allocated_size > MAX_SEGMENT_SIZE {
        Err(LibCZIApiError::InvalidArgument)
    } else if offset + 32 + allocated_size > usize::MAX {
        Err(LibCZIApiError::OutOfMemory)
    } else {
        Ok((32 + allocated_size) as u64)
    }
}

/// Writes a segment at `offset` and says how many bytes it takes. Nothing is
/// written where the call fails.
pub fn write_segment(
    stream: &mut OutputStream,
    offset: u64,
    kind: SegmentKind,
    payload: &[u8],
    allocated_size: u64,
) -> (written: Result<u64, LibCZIApiError>)
    ensures
        written == write_segment_spec(offset, payload@, allocated_size),
        match written {
            Ok(_) => final(stream)@ == write_spec(
                old(stream)@,
                offset as int,
                segment_bytes(kind, payload@, allocated_size),
            ),
            Err(_) => final(stream)@ == old(stream)@,
        },
{
    let used: usize = payload.len();
    if used as u64 > allocated_size || allocated_size > MAX_SEGMENT_SIZE {
        return Err(LibCZIApiError::InvalidArgument);
    }
    if offset > usize::MAX as u64 || allocated_size > usize::MAX as u64 || allocated_size as usize
        > usize::MAX - 32 || offset as usize > usize::MAX - 32 - allocated_size as usize {
        return Err(LibCZIApiError::OutOfMemory);
    }
    let mut bytes: Vec<u8> = Vec::new();
    put_slice(&mut bytes, kind.tag().as_slice());
    put_u64(&mut bytes, allocated_size);
    put_u64(&mut bytes, used as u64);
    put_slice(&mut bytes, payload);
    put_zeros(&mut bytes, allocated_size as usize - used);
    proof {
        lemma_tags(kind);
        assert(bytes@ =~= segment_bytes(kind, payload@, allocated_size));
        assert(bytes@.len() == 32 + allocated_size);
    }
    match stream.write(offset, bytes.as_slice()) {
        Ok(_) => Ok(32 + allocated_size),
        Err(e) => Err(e),
    }
}

/// A segment that was written at `offset` is read there, with its payload.
pub proof fn lemma_segment_round_trip(
    stream: Seq<u8>,
    offset: int,
    kind: SegmentKind,
    payload: Seq<u8>,
    allocated_size: u64,
)
    requires
        0 <= offset,
        payload.len() <= allocated_size <= MAX_SEGMENT_SIZE,
    ensures
        ({
            let after = write_spec(stream, offset, segment_bytes(kind, payload, allocated_size));
            let header = SegmentHeader { kind, allocated_size, used_size: payload.len() as u64 };
            &&& segment_at(after, offset) == Ok::<SegmentHeader, LibCZIApiError>(header)
            &&& payload_at(after, offset, header) == payload
            &&& after.len() >= offset + 32 + allocated_size
        }),
{
    let header = SegmentHeader { kind, allocated_size, used_size: payload.len() as u64 };
    let whole = segment_bytes(kind, payload, allocated_size);
    let after = write_spec(stream, offset, whole);
    lemma_header_round_trip(header);
    assert(whole.len() == 32 + allocated_size);
    assert(after.subrange(offset, offset + 32) =~= header.bytes_spec());
    assert(payload_at(after, offset, header) =~= payload);
}

/// A segment is read from the bytes it stands in, and from no others: two
/// streams that hold the same bytes from `offset` to the end of what the
/// segment there sets aside give the same segment and the same payload.
pub proof fn lemma_segment_depends_on_its_bytes(first: Seq<u8>, second: Seq<u8>, offset: int)
    requires
        segment_at(first, offset) is Ok,
        ({
            let end = offset + 32 + segment_at(first, offset)->Ok_0.allocated_size;
            &&& second.len() >= end
            &&& second.subrange(offset, end) == first.subrange(offset, end)
        }),
    ensures
        segment_at(second, offset) == segment_at(first, offset),
        payload_at(second, offset, segment_at(first, offset)->Ok_0) == payload_at(
            first,
            offset,
            segment_at(first, offset)->Ok_0,
        ),
{
    let header = segment_at(first, offset)->Ok_0;
    let end = offset + 32 + header.allocated_size;
    let a = first.subrange(offset, end);
    let b = second.subrange(offset, end);
    assert(first.subrange(offset, offset + 32) =~= a.subrange(0, 32));
    assert(second.subrange(offset, offset + 32) =~= b.subrange(0, 32));
    assert(payload_at(first, offset, header) =~= a.subrange(32, 32 + header.used_size));
    assert(payload_at(second, offset, header) =~= b.subrange(32, 32 + header.used_size));
}

} // verus!
