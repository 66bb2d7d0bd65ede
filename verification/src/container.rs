//! The container as a whole: which segments stand where, and what a reader
//! finds when it opens one.
//!
//! A container starts with the file header segment. The sub-block segments,
//! the attachment segments and the metadata segment follow in any order.
//! The file header says where the sub-block directory, the attachment
//! directory and the metadata start.

use crate::attachment::{
    parse_attachment, parse_attachment_directory, AttachmentContent, AttachmentEntry,
};
use crate::directory::{directory_accepts, parse_directory};
use crate::error::LibCZIApiError;
use crate::header::{parse_file_header, FileHeader};
use crate::metadata::parse_metadata;
use crate::segment::{
    lemma_segment_depends_on_its_bytes, lemma_segment_round_trip, payload_at, segment_at,
    segment_bytes, segment_of_kind_at, SegmentHeader, SegmentKind, MAX_SEGMENT_SIZE,
};
use crate::stream::{ write_spec};
use crate::subblock::{parse_sub_block, SubBlockContent, SubBlockDirectoryEntry};
use vstd::prelude::*;

verus! {

/// How many bytes the file header segment takes: its header and its payload.
pub const FILE_HEADER_SEGMENT_SIZE: u64 = 544;

/// The major version of the format that is read and written. A container
/// of another major version may lay its directories out in another way.
pub const FORMAT_MAJOR_VERSION: i32 = 1;

/// The minor version of the format that is written.
pub const FORMAT_MINOR_VERSION: i32 = 0;

/// What a reader finds when it opens a container: the file header, the
/// entries of the sub-block directory with the number of places that it
/// declares, and the entries of the attachment directory.
pub struct ContainerIndex {
    pub header: FileHeader,
    pub entries: Seq<SubBlockDirectoryEntry>,
    pub declared: nat,
    pub attachments: Seq<AttachmentEntry>,
}

/// The payload of the segment of the given kind at `offset`.
pub open spec fn payload_of_kind_at(stream: Seq<u8>, offset: int, kind: SegmentKind) -> Result<
    Seq<u8>,
    LibCZIApiError,
> {
    match segment_of_kind_at(stream, offset, kind) {
        Err(e) => Err(e),
        Ok(header) => Ok(payload_at(stream, offset, header)),
    }
}

/// The sub-block whose segment starts at `offset`.
pub open spec fn sub_block_at(stream: Seq<u8>, offset: int) -> Result<
    SubBlockContent,
    LibCZIApiError,
> {
    match payload_of_kind_at(stream, offset, SegmentKind::SubBlock) {
        Err(e) => Err(e),
        Ok(payload) => parse_sub_block(payload),
    }
}

/// The attachment whose segment starts at `offset`.
pub open spec fn attachment_at(stream: Seq<u8>, offset: int) -> Result<
    AttachmentContent,
    LibCZIApiError,
> {
    match payload_of_kind_at(stream, offset, SegmentKind::Attachment) {
        Err(e) => Err(e),
        Ok(payload) => parse_attachment(payload),
    }
}

/// The XML text of the metadata segment that starts at `offset`.
pub open spec fn metadata_at(stream: Seq<u8>, offset: int) -> Result<Seq<u8>, LibCZIApiError> {
    match payload_of_kind_at(stream, offset, SegmentKind::Metadata) {
        Err(e) => Err(e),
        Ok(payload) => parse_metadata(payload),
    }
}

/// The file header of a container.
pub open spec fn file_header_of(stream: Seq<u8>) -> Result<FileHeader, LibCZIApiError> {
    match payload_of_kind_at(stream, 0, SegmentKind::FileHeader) {
        Err(e) => Err(e),
        Ok(payload) => parse_file_header(payload),
    }
}

/// The entries of the attachment directory that the file header points to,
/// and none where it points to no attachment directory.
pub open spec fn attachments_of(stream: Seq<u8>, header: FileHeader) -> Result<
    Seq<AttachmentEntry>,
    LibCZIApiError,
> {
    if header.attachment_directory_position == 0 {
        Ok(Seq::empty())
    } else {
        match payload_of_kind_at(
            stream,
            header.attachment_directory_position as int,
            SegmentKind::AttachmentDirectory,
        ) {
            Err(e) => Err(e),
            Ok(payload) => parse_attachment_directory(payload),
        }
    }
}

/// What opening a container gives.
///
/// The file header is read at the start of the stream, then the sub-block
/// directory where the file header says it is, then the attachment
/// directory. The first of these that cannot be read gives its error:
/// `Truncated` where the stream ends too early, `CorruptData` where a
/// segment is not what it has to be. A file header of another major
/// version, and a sub-block directory that a directory does not take in,
/// give `CorruptData` too.
pub open spec fn open_spec(stream: Seq<u8>) -> Result<ContainerIndex, LibCZIApiError> {
    match file_header_of(stream) {
        Err(e) => Err(e),
        Ok(header) => if header.info.major_version != FORMAT_MAJOR_VERSION {
            Err(LibCZIApiError::CorruptData)
        } else {
            open_directories(stream, header)
        },
    }
}

/// What opening a container with the given file header gives.
pub open spec fn open_directories(stream: Seq<u8>, header: FileHeader) -> Result<
    ContainerIndex,
    LibCZIApiError,
> {
    match payload_of_kind_at(
        stream,
        header.directory_position as int,
        SegmentKind::SubBlockDirectory,
    ) {
        Err(e) => Err(e),
        Ok(payload) => match parse_directory(payload) {
            Err(e) => Err(e),
            Ok((entries, declared)) => if !directory_accepts(entries) {
                Err(LibCZIApiError::CorruptData)
            } else {
                match attachments_of(stream, header) {
                    Err(e) => Err(e),
                    Ok(attachments) => Ok(ContainerIndex { header, entries, declared, attachments }),
                }
            },
        },
    }
}

/// Whether two streams hold the same bytes from `low` up to `high`.
pub open spec fn same_bytes(first: Seq<u8>, second: Seq<u8>, low: int, high: int) -> bool {
    &&& 0 <= low
    &&& high <= first.len()
    &&& high <= second.len()
    &&& forall|i: int| low <= i < high ==> first[i] == second[i]
}

/// Streams that hold the same bytes over a range hold the same segments in
/// it, with the same payloads.
pub proof fn lemma_same_bytes_keep_segment(
    first: Seq<u8>,
    second: Seq<u8>,
    low: int,
    high: int,
    offset: int,
    kind: SegmentKind,
)
    requires
        same_bytes(first, second, low, high),
        low <= offset,
        segment_at(first, offset) matches Ok(header) && offset + 32 + header.allocated_size <= high,
    ensures
        segment_at(second, offset) == segment_at(first, offset),
        payload_of_kind_at(second, offset, kind) == payload_of_kind_at(first, offset, kind),
        sub_block_at(second, offset) == sub_block_at(first, offset),
        attachment_at(second, offset) == attachment_at(first, offset),
        metadata_at(second, offset) == metadata_at(first, offset),
{
    let header = segment_at(first, offset)->Ok_0;
    let end = offset + 32 + header.allocated_size;
    assert(second.subrange(offset, end) =~= first.subrange(offset, end));
    lemma_segment_depends_on_its_bytes(first, second, offset);
}

/// A stream with bytes added at its end holds the bytes it held.
pub proof fn lemma_append_keeps_bytes(stream: Seq<u8>, more: Seq<u8>, low: int)
    requires
        0 <= low,
    ensures
        same_bytes(stream, stream + more, low, stream.len() as int),
{
}

/// A write leaves every range that it does not touch as it was.
pub proof fn lemma_write_keeps_bytes(
    stream: Seq<u8>,
    offset: int,
    bytes: Seq<u8>,
    low: int,
    high: int,
)
    requires
        0 <= offset,
        0 <= low,
        high <= stream.len(),
        offset + bytes.len() <= low || high <= offset,
    ensures
        same_bytes(stream, write_spec(stream, offset, bytes), low, high),
{
}

/// Holding the same bytes carries over from stream to stream.
pub proof fn lemma_same_bytes_chain(
    first: Seq<u8>,
    second: Seq<u8>,
    third: Seq<u8>,
    low: int,
    high: int,
)
    requires
        same_bytes(first, second, low, high),
        same_bytes(second, third, low, high),
    ensures
        same_bytes(first, third, low, high),
{
}

/// Holding the same bytes over a range means holding them over every part
/// of it.
pub proof fn lemma_same_bytes_part(
    first: Seq<u8>,
    second: Seq<u8>,
    low: int,
    high: int,
    from: int,
    to: int,
)
    requires
        same_bytes(first, second, low, high),
        low <= from,
        to <= high,
    ensures
        same_bytes(first, second, from, to),
{
}

/// A segment that was written at `offset` stands there, with its payload.
pub proof fn lemma_written_segment(
    stream: Seq<u8>,
    offset: int,
    kind: SegmentKind,
    payload: Seq<u8>,
    allocated_size: u64,
)
    requires
        0 <= offset,
        payload.len() <= allocated_size <= MAX_SEGMENT_SIZE,
    ensures
        ({
            let after = write_spec(stream, offset, segment_bytes(kind, payload, allocated_size));
            &&& segment_at(after, offset) == Ok::<SegmentHeader, LibCZIApiError>(
                SegmentHeader { kind, allocated_size, used_size: payload.len() as u64 },
            )
            &&& payload_of_kind_at(after, offset, kind) == Ok::<Seq<u8>, LibCZIApiError>(payload)
            &&& segment_bytes(kind, payload, allocated_size).len() == 32 + allocated_size
            &&& after.len() >= offset + 32 + allocated_size
        }),
{
    lemma_segment_round_trip(stream, offset, kind, payload, allocated_size);
    crate::segment::lemma_header_round_trip(
        SegmentHeader { kind, allocated_size, used_size: payload.len() as u64 },
    );
}

} // verus!
