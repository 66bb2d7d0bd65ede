//! The writer: it lays a document out in an output stream, segment by
//! segment, and closes it with the directories and the file header.
//!
//! A writer is created, then bound to a stream, then closed. Sub-blocks,
//! attachments and metadata are taken only while it is bound and not yet
//! closed. A writer that is given up without being closed leaves a stream
//! without directories behind: closing is the caller's duty.

use crate::attachment::{
    attachment_directory_payload, attachment_payload, lemma_attachment_directory_round_trip,
    lemma_attachment_round_trip, write_attachment_directory, write_attachment_payload,
    AddAttachmentInfo, AttachmentContent, AttachmentEntry,
};
use crate::bitmap::{
    lemma_restride_len, lemma_restride_without_padding, restride, restride_rows, BitmapInfo,
};
use crate::container::{FORMAT_MAJOR_VERSION, FORMAT_MINOR_VERSION};
use crate::container::{
    attachment_at, lemma_append_keeps_bytes, lemma_same_bytes_chain, lemma_same_bytes_keep_segment,
    lemma_same_bytes_part, lemma_write_keeps_bytes, lemma_written_segment, metadata_at, open_spec,
    same_bytes, sub_block_at, ContainerIndex,
};
use crate::directory::{
    directory_payload, has_identity, lemma_directory_round_trip, SubBlockDirectory,
};
use crate::error::LibCZIApiError;
use crate::geometry::{IntRect, IntSize};
use crate::header::{
    file_header_bytes, lemma_file_header_round_trip, write_file_header, FileHeader, FileHeaderInfo,
};
use crate::json::{
    find_member, member_views, object_of, read_object, value_of, JsonMember, JsonMemberView,
    JsonValue, JsonValueView,
};
use crate::wire::{array_of, lemma_array_of};
use vstd::string::StringSliceAdditionalSpecFns;
use crate::metadata::{
    lemma_metadata_round_trip, metadata_payload, write_metadata_payload, WriteMetadataInfo,
};
use crate::pixel::PixelType;
use crate::segment::{segment_at, segment_bytes, write_segment, SegmentKind, MAX_SEGMENT_SIZE};
use crate::statistics::statistics_fit;
use crate::stream::{lemma_write_at_end, write_spec, OutputStream};
use crate::reader::{read_attachment_spec, read_sub_block_spec};
use crate::subblock::{
    decode_spec, lemma_stored_pixels_are_decoded, lemma_sub_block_round_trip, pixels_of,
    sub_block_payload, sub_block_sizes_fit, COMPRESSION_ZSTD0,
    write_sub_block_payload, AddSubBlockInfo, SubBlockContent, SubBlockDirectoryEntry,
    COMPRESSION_NONE, NO_M_INDEX,
};
use crate::zstd::{frame_content, stored_frame};
use vstd::prelude::*;

verus! {

/// Where a writer stands in its life.
#[derive(Clone, Copy, Debug, PartialEq, Eq, Structural)]
pub enum WriterState {
    /// Created, and not yet bound to a stream.
    Created,
    /// Bound to a stream, and taking sub-blocks, attachments and metadata.
    Initialized,
    /// Closed: the directories and the file header are written.
    Finalized,
}

/// What a writer is created with.
#[derive(Clone, Copy, Debug, PartialEq, Eq, Structural)]
pub struct WriterOptions {
    /// Whether a sub-block may be added that stands for the same sub-block
    /// as one that was added before.
    pub allow_duplicate_subblocks: bool,
}

/// What a writer is bound to a stream with.
#[derive(Clone, Copy, Debug)]
pub struct WriterParameters {
    /// The 128-bit identifier of the document.
    pub file_guid: [u8; 16],
    /// How many bytes are set aside for the payload of the attachment
    /// directory, right behind the file header; 0 sets nothing aside.
    pub reserved_size_attachments_directory: u32,
    /// How many bytes are set aside for the payload of the metadata
    /// segment, right behind the file header; 0 sets nothing aside.
    pub reserved_size_metadata_segment: u32,
    /// The lowest M-index that a sub-block may have.
    pub minimum_m_index: i32,
    /// The highest M-index that a sub-block may have. Where it is below the
    /// lowest, every M-index is taken.
    pub maximum_m_index: i32,
}

/// What a writer has reached: its state, what it was made and bound with,
/// the bytes of its stream, and what stands in its directories.
pub struct WriterView {
    pub state: WriterState,
    pub allow_duplicate_subblocks: bool,
    pub parameters: WriterParameters,
    pub stream: Seq<u8>,
    pub entries: Seq<SubBlockDirectoryEntry>,
    pub attachments: Seq<AttachmentEntry>,
    /// Where the metadata segment starts, or 0 where none was written.
    pub metadata_position: u64,
}

/// A writer of documents.
#[derive(Debug)]
pub struct CziWriter {
    state: WriterState,
    allow_duplicate_subblocks: bool,
    parameters: WriterParameters,
    stream: OutputStream,
    directory: SubBlockDirectory,
    attachments: Vec<AttachmentEntry>,
    metadata_position: u64,
}

/// How many bytes a room takes that is set aside for a payload of
/// `reserved` bytes: the payload and the header of its segment.
pub open spec fn room_size(reserved: u32) -> int {
    if reserved > 0 {
        32 + reserved
    } else {
        0
    }
}

/// Where the room for the metadata segment starts, or 0 where none is set
/// aside.
pub open spec fn metadata_room(parameters: WriterParameters) -> int {
    if parameters.reserved_size_metadata_segment > 0 {
        544
    } else {
        0
    }
}

/// Where the room for the attachment directory starts, or 0 where none is
/// set aside.
pub open spec fn attachments_room(parameters: WriterParameters) -> int {
    if parameters.reserved_size_attachments_directory > 0 {
        544 + room_size(parameters.reserved_size_metadata_segment)
    } else {
        0
    }
}

/// Where the segments start that are added after the writer was bound:
/// behind the file header and the rooms.
pub open spec fn data_start(parameters: WriterParameters) -> int {
    544 + room_size(parameters.reserved_size_metadata_segment) + room_size(
        parameters.reserved_size_attachments_directory,
    )
}

/// The bytes of a room: a segment that is marked as free.
pub open spec fn room_bytes(reserved: u32) -> Seq<u8> {
    if reserved > 0 {
        segment_bytes(SegmentKind::Deleted, Seq::empty(), reserved as u64)
    } else {
        Seq::empty()
    }
}

/// The file header of a document with the given places.
pub open spec fn header_with(
    parameters: WriterParameters,
    directory_position: u64,
    metadata_position: u64,
    attachment_directory_position: u64,
) -> FileHeader {
    FileHeader {
        info: FileHeaderInfo {
            guid: parameters.file_guid,
            major_version: FORMAT_MAJOR_VERSION,
            minor_version: FORMAT_MINOR_VERSION,
        },
        directory_position,
        metadata_position,
        attachment_directory_position,
    }
}

/// The bytes of the file header segment of a document with the given places.
pub open spec fn header_segment(
    parameters: WriterParameters,
    directory_position: u64,
    metadata_position: u64,
    attachment_directory_position: u64,
) -> Seq<u8> {
    segment_bytes(
        SegmentKind::FileHeader,
        file_header_bytes(
            header_with(
                parameters,
                directory_position,
                metadata_position,
                attachment_directory_position,
            ),
        ),
        512,
    )
}

/// What a stream holds right after a writer was bound to it: a file header
/// that points to nothing yet, and the rooms.
pub open spec fn initial_stream(parameters: WriterParameters) -> Seq<u8> {
    header_segment(parameters, 0, 0, 0) + room_bytes(parameters.reserved_size_metadata_segment)
        + room_bytes(parameters.reserved_size_attachments_directory)
}

/// How many bytes of pixels one row of the sub-block has, or 0 where its
/// pixel type is not known.
pub open spec fn row_size(info: AddSubBlockInfo) -> int {
    match PixelType::of_code(info.pixel_type as int) {
        Some(pixel_type) => info.physical_width * pixel_type.bytes_per_pixel_spec(),
        None => 0,
    }
}

/// Whether the M-index lies within what the parameters allow.
pub open spec fn m_index_allowed(parameters: WriterParameters, m_index: i32) -> bool {
    parameters.minimum_m_index <= parameters.maximum_m_index ==> parameters.minimum_m_index
        <= m_index <= parameters.maximum_m_index
}

/// What a sub-block must be like to be added.
///
/// Its pixel type is known, its coordinate names known dimensions only, no
/// width or height is negative, and the three sizes are the sizes of the
/// three buffers. An M-index that is meant is not the number that says
/// "none", and lies within what the parameters allow. Data that is not
/// compressed is exactly as many rows as the stored height says, `stride`
/// bytes apart, with room for the pixels of a row in each.
pub open spec fn sub_block_is_valid(parameters: WriterParameters, info: AddSubBlockInfo) -> bool {
    &&& PixelType::of_code(info.pixel_type as int) is Some
    &&& info.coordinate.is_valid_spec()
    &&& info.logical_width >= 0
    &&& info.logical_height >= 0
    &&& info.physical_width >= 0
    &&& info.physical_height >= 0
    &&& info.size_data == info.data@.len()
    &&& info.size_metadata == info.metadata@.len()
    &&& info.size_attachment == info.attachment@.len()
    &&& info.m_index_valid != 0 ==> info.m_index != NO_M_INDEX && m_index_allowed(
        parameters,
        info.m_index,
    )
    &&& info.compression_mode_raw == COMPRESSION_NONE ==> row_size(info) <= info.stride
        && info.data@.len() == info.stride * info.physical_height
}

/// The directory entry of a sub-block whose segment starts at `position`.
pub open spec fn entry_of(info: AddSubBlockInfo, position: u64) -> SubBlockDirectoryEntry {
    SubBlockDirectoryEntry {
        coordinate: info.coordinate,
        logical_rect: IntRect {
            x: info.x,
            y: info.y,
            w: info.logical_width,
            h: info.logical_height,
        },
        physical_size: IntSize { w: info.physical_width, h: info.physical_height },
        pixel_type: info.pixel_type,
        compression_mode_raw: info.compression_mode_raw,
        m_index_valid: info.m_index_valid != 0,
        m_index: info.m_index,
        file_position: position,
    }
}

/// The data of a sub-block as it is stored: compressed data as it is, and
/// the rows of data that is not compressed one after the other, without the
/// padding between them.
pub open spec fn stored_data(info: AddSubBlockInfo) -> Seq<u8> {
    if info.compression_mode_raw == COMPRESSION_NONE {
        restride(
            info.data@,
            info.stride as int,
            row_size(info),
            row_size(info),
            info.physical_height as nat,
        )
    } else {
        info.data@
    }
}

/// What the segment of a sub-block holds that is added at `position`.
pub open spec fn content_of(info: AddSubBlockInfo, position: u64) -> SubBlockContent {
    SubBlockContent {
        entry: entry_of(info, position),
        metadata: info.metadata@,
        data: stored_data(info),
        attachment: info.attachment@,
    }
}

/// The bytes of the segment of a sub-block that is added at `position`.
pub open spec fn sub_block_segment(info: AddSubBlockInfo, position: u64) -> Seq<u8> {
    segment_bytes(
        SegmentKind::SubBlock,
        sub_block_payload(content_of(info, position)),
        sub_block_payload(content_of(info, position)).len() as u64,
    )
}

/// Whether adding the sub-block succeeds, and the error where it does not.
///
/// `InvalidArgument` where the writer is not bound or is closed, where the
/// sub-block is not valid, where it stands for the same sub-block as one
/// that was added before and the writer does not allow that, or where the
/// figures of the document would no longer fit with it. `OutOfMemory` where
/// the stream would grow larger than memory can be.
pub open spec fn add_sub_block_spec(writer: WriterView, info: AddSubBlockInfo) -> Result<
    (),
    LibCZIApiError,
> {
    let entry = entry_of(info, writer.stream.len() as u64);
    if writer.state != WriterState::Initialized || !sub_block_is_valid(writer.parameters, info) || (
    !writer.allow_duplicate_subblocks && has_identity(writer.entries, entry)) || !statistics_fit(
        writer.entries.push(entry),
    ) {
        Err(LibCZIApiError::InvalidArgument)
    } else if sub_block_payload(content_of(info, writer.stream.len() as u64)).len()
        > MAX_SEGMENT_SIZE || writer.stream.len() + 32 + sub_block_payload(
        content_of(info, writer.stream.len() as u64),
    ).len() > usize::MAX {
        Err(LibCZIApiError::OutOfMemory)
    } else {
        Ok(())
    }
}

/// Whether binding the writer succeeds, and the error where it does not:
/// `InvalidArgument` where the writer is bound already or the stream is not
/// empty, `OutOfMemory` where the file header and the rooms would take more
/// than memory can be.
pub open spec fn init_spec(writer: WriterView, stream: Seq<u8>, parameters: WriterParameters) -> Result<
    (),
    LibCZIApiError,
> {
    if writer.state != WriterState::Created || stream.len() != 0 {
        Err(LibCZIApiError::InvalidArgument)
    } else if data_start(parameters) > usize::MAX {
        Err(LibCZIApiError::OutOfMemory)
    } else {
        Ok(())
    }
}

/// The directory entry of an attachment whose segment starts at `position`.
pub open spec fn attachment_entry_of(info: AddAttachmentInfo, position: u64) -> AttachmentEntry {
    AttachmentEntry {
        guid: info.guid,
        content_file_type: info.content_file_type,
        name: info.name,
        file_position: position,
    }
}

/// The bytes of the segment of an attachment that is added at `position`.
pub open spec fn attachment_segment(info: AddAttachmentInfo, position: u64) -> Seq<u8> {
    segment_bytes(
        SegmentKind::Attachment,
        attachment_payload(
            AttachmentContent {
                entry: attachment_entry_of(info, position),
                data: info.attachment_data@,
            },
        ),
        (256 + info.attachment_data@.len()) as u64,
    )
}

/// Whether adding the attachment succeeds, and the error where it does not.
///
/// `InvalidArgument` where the writer is not bound or is closed, where the
/// size that is stated is not the size of the payload, or where the
/// attachment directory is full. `OutOfMemory` where the stream would grow
/// larger than memory can be.
pub open spec fn add_attachment_spec(writer: WriterView, info: AddAttachmentInfo) -> Result<
    (),
    LibCZIApiError,
> {
    if writer.state != WriterState::Initialized || info.size_attachment_data
        != info.attachment_data@.len() || writer.attachments.len() >= i32::MAX {
        Err(LibCZIApiError::InvalidArgument)
    } else if 256 + info.attachment_data@.len() > MAX_SEGMENT_SIZE || writer.stream.len() + 32
        + 256 + info.attachment_data@.len() > usize::MAX {
        Err(LibCZIApiError::OutOfMemory)
    } else {
        Ok(())
    }
}

/// Whether the metadata goes into the room that was set aside for it.
pub open spec fn metadata_fits_room(parameters: WriterParameters, info: WriteMetadataInfo) -> bool {
    parameters.reserved_size_metadata_segment > 0 && 256 + info.metadata@.len()
        <= parameters.reserved_size_metadata_segment
}

/// Where the metadata segment is written: into its room where it fits, and
/// else at the end of the stream.
pub open spec fn metadata_place(writer: WriterView, info: WriteMetadataInfo) -> int {
    if metadata_fits_room(writer.parameters, info) {
        544
    } else {
        writer.stream.len() as int
    }
}

/// The bytes of the metadata segment.
pub open spec fn metadata_segment(parameters: WriterParameters, info: WriteMetadataInfo) -> Seq<u8> {
    segment_bytes(
        SegmentKind::Metadata,
        metadata_payload(info.metadata@),
        if metadata_fits_room(parameters, info) {
            parameters.reserved_size_metadata_segment as u64
        } else {
            (256 + info.metadata@.len()) as u64
        },
    )
}

/// Whether writing the metadata succeeds, and the error where it does not.
///
/// `InvalidArgument` where the writer is not bound or is closed, where the
/// size that is stated is not the size of the text, or where metadata was
/// written before. `OutOfMemory` where the stream would grow larger than
/// memory can be.
pub open spec fn write_metadata_spec(writer: WriterView, info: WriteMetadataInfo) -> Result<
    (),
    LibCZIApiError,
> {
    if writer.state != WriterState::Initialized || info.size_metadata != info.metadata@.len()
        || writer.metadata_position != 0 {
        Err(LibCZIApiError::InvalidArgument)
    } else if !metadata_fits_room(writer.parameters, info) && writer.stream.len() + 32 + 256
        + info.metadata@.len() > usize::MAX {
        Err(LibCZIApiError::OutOfMemory)
    } else {
        Ok(())
    }
}

/// Whether the attachment directory goes into the room that was set aside
/// for it.
pub open spec fn attachments_fit_room(writer: WriterView) -> bool {
    writer.parameters.reserved_size_attachments_directory > 0 && 256 + 128
        * writer.attachments.len() <= writer.parameters.reserved_size_attachments_directory
}

/// The bytes of the segment of the sub-block directory.
pub open spec fn directory_segment(writer: WriterView) -> Seq<u8> {
    segment_bytes(
        SegmentKind::SubBlockDirectory,
        directory_payload(writer.entries, writer.entries.len() as u32),
        (128 + 128 * writer.entries.len()) as u64,
    )
}

/// The bytes of the segment of the attachment directory.
pub open spec fn attachments_segment(writer: WriterView) -> Seq<u8> {
    segment_bytes(
        SegmentKind::AttachmentDirectory,
        attachment_directory_payload(writer.attachments),
        if attachments_fit_room(writer) {
            writer.parameters.reserved_size_attachments_directory as u64
        } else {
            (256 + 128 * writer.attachments.len()) as u64
        },
    )
}

/// Where the attachment directory is written when the writer is closed: 0
/// where there is no attachment, its room where it fits, and else behind
/// the sub-block directory.
pub open spec fn attachments_place(writer: WriterView) -> int {
    if writer.attachments.len() == 0 {
        0
    } else if attachments_fit_room(writer) {
        attachments_room(writer.parameters)
    } else {
        writer.stream.len() as int + 32 + 128 + 128 * writer.entries.len()
    }
}

/// How long the stream is after the writer was closed.
pub open spec fn closed_size(writer: WriterView) -> int {
    writer.stream.len() as int + 32 + 128 + 128 * writer.entries.len() + if writer.attachments.len()
        == 0 || attachments_fit_room(writer) {
        0int
    } else {
        32 + 256 + 128 * (writer.attachments.len() as int)
    }
}

/// The stream with the sub-block directory written at its end.
pub open spec fn with_directory(writer: WriterView) -> Seq<u8> {
    writer.stream + directory_segment(writer)
}

/// The stream with both directories written.
pub open spec fn with_directories(writer: WriterView) -> Seq<u8> {
    if writer.attachments.len() == 0 {
        with_directory(writer)
    } else {
        write_spec(with_directory(writer), attachments_place(writer), attachments_segment(writer))
    }
}

/// The file header of the closed document.
pub open spec fn closed_header(writer: WriterView) -> FileHeader {
    header_with(
        writer.parameters,
        writer.stream.len() as u64,
        writer.metadata_position,
        attachments_place(writer) as u64,
    )
}

/// What the stream holds after the writer was closed: the sub-block
/// directory at the end of what was there, then the attachment directory,
/// and the file header at the start, with the places of both and of the
/// metadata in it.
pub open spec fn closed_stream(writer: WriterView) -> Seq<u8> {
    write_spec(
        with_directories(writer),
        0,
        segment_bytes(SegmentKind::FileHeader, file_header_bytes(closed_header(writer)), 512),
    )
}

/// Whether closing the writer succeeds, and the error where it does not:
/// `InvalidArgument` where the writer is not bound or is closed already,
/// `OutOfMemory` where the stream would grow larger than memory can be.
pub open spec fn close_spec(writer: WriterView) -> Result<(), LibCZIApiError> {
    if writer.state != WriterState::Initialized {
        Err(LibCZIApiError::InvalidArgument)
    } else if closed_size(writer) > usize::MAX {
        Err(LibCZIApiError::OutOfMemory)
    } else {
        Ok(())
    }
}

/// What a reader finds when it opens the closed document.
pub open spec fn closed_index(writer: WriterView) -> ContainerIndex {
    ContainerIndex {
        header: closed_header(writer),
        entries: writer.entries,
        declared: writer.entries.len(),
        attachments: writer.attachments,
    }
}

/// Whether the stream starts with the file header that is written when a
/// writer is bound: the header of a document without directories and
/// without metadata.
pub open spec fn header_is_blank(stream: Seq<u8>, parameters: WriterParameters) -> bool {
    stream.len() >= 544 && stream.subrange(0, 544) == header_segment(parameters, 0, 0, 0)
}

/// The file header segment takes 544 bytes.
pub proof fn lemma_header_segment_size(parameters: WriterParameters)
    ensures
        header_segment(parameters, 0, 0, 0).len() == 544,
{
    lemma_file_header_round_trip(header_with(parameters, 0, 0, 0));
    lemma_written_segment(
        Seq::empty(),
        0,
        SegmentKind::FileHeader,
        file_header_bytes(header_with(parameters, 0, 0, 0)),
        512,
    );
}

/// A stream that starts with the file header of a bound writer keeps doing
/// so while its first 544 bytes stay as they are.
pub proof fn lemma_header_stays(before: Seq<u8>, after: Seq<u8>, parameters: WriterParameters)
    requires
        header_is_blank(before, parameters),
        same_bytes(before, after, 0, 544),
    ensures
        header_is_blank(after, parameters),
{
    assert(after.subrange(0, 544) =~= before.subrange(0, 544));
}

/// The stream of a writer that was bound and never closed does not open as
/// a container: its file header points to no sub-block directory, so that
/// the reader finds the file header where it looks for the directory.
pub proof fn lemma_unclosed_stream_does_not_open(stream: Seq<u8>, parameters: WriterParameters)
    requires
        header_is_blank(stream, parameters),
    ensures
        open_spec(stream) == Err::<ContainerIndex, LibCZIApiError>(LibCZIApiError::CorruptData),
{
    let header = header_with(parameters, 0, 0, 0);
    let payload = file_header_bytes(header);
    let segment = header_segment(parameters, 0, 0, 0);
    lemma_file_header_round_trip(header);
    lemma_written_segment(Seq::empty(), 0, SegmentKind::FileHeader, payload, 512);
    lemma_write_at_end(Seq::empty(), segment);
    assert(Seq::<u8>::empty() + segment =~= segment);
    assert(segment.subrange(0, 544) =~= segment);
    crate::segment::lemma_segment_depends_on_its_bytes(segment, stream, 0);
    assert(crate::container::payload_of_kind_at(stream, 0, SegmentKind::FileHeader) == Ok::<Seq<u8>, LibCZIApiError>(
        payload,
    ));
}

/// Whether the segment of the entry stands in the stream, at or behind
/// `from`, and holds the entry.
pub open spec fn entry_stands(stream: Seq<u8>, entry: SubBlockDirectoryEntry, from: int) -> bool {
    &&& entry.file_position >= from
    &&& sub_block_at(stream, entry.file_position as int) matches Ok(content)
    &&& content.entry == entry
}

/// Whether the segment of every entry stands in the stream.
pub open spec fn entries_stand(
    stream: Seq<u8>,
    entries: Seq<SubBlockDirectoryEntry>,
    from: int,
) -> bool {
    forall|i: int| 0 <= i < entries.len() ==> entry_stands(stream, #[trigger] entries[i], from)
}

/// Whether the segment of the attachment stands in the stream, at or behind
/// `from`, and holds the entry.
pub open spec fn attachment_stands(stream: Seq<u8>, entry: AttachmentEntry, from: int) -> bool {
    &&& entry.file_position >= from
    &&& attachment_at(stream, entry.file_position as int) matches Ok(content)
    &&& content.entry == entry
}

/// Whether the segment of every attachment stands in the stream.
pub open spec fn attachments_stand(
    stream: Seq<u8>,
    attachments: Seq<AttachmentEntry>,
    from: int,
) -> bool {
    forall|i: int|
        0 <= i < attachments.len() ==> attachment_stands(stream, #[trigger] attachments[i], from)
}

/// Whether `position` is the room of the metadata, and a segment as large
/// as the room stands there.
pub open spec fn stands_in_room(stream: Seq<u8>, parameters: WriterParameters, position: u64) -> bool {
    &&& position == 544
    &&& parameters.reserved_size_metadata_segment > 0
    &&& segment_at(stream, 544) matches Ok(header)
    &&& header.allocated_size == parameters.reserved_size_metadata_segment
}

/// Whether the metadata segment stands in the stream where the writer says:
/// in its room, or behind the rooms.
pub open spec fn metadata_stands(
    stream: Seq<u8>,
    parameters: WriterParameters,
    position: u64,
) -> bool {
    position != 0 ==> {
        &&& metadata_at(stream, position as int) is Ok
        &&& position >= data_start(parameters) || stands_in_room(stream, parameters, position)
    }
}

/// Whether a stream holds all that an earlier stream held of a document:
/// the bytes behind the rooms, and the room of the metadata.
pub open spec fn keeps_document(
    first: Seq<u8>,
    second: Seq<u8>,
    parameters: WriterParameters,
) -> bool {
    &&& data_start(parameters) <= first.len()
    &&& same_bytes(first, second, data_start(parameters), first.len() as int)
    &&& same_bytes(first, second, 544, 544 + room_size(parameters.reserved_size_metadata_segment))
}

/// A stream that keeps the document keeps the segments of its sub-blocks,
/// of its attachments and of its metadata, with what they hold.
pub proof fn lemma_document_kept(
    first: Seq<u8>,
    second: Seq<u8>,
    parameters: WriterParameters,
    entries: Seq<SubBlockDirectoryEntry>,
    attachments: Seq<AttachmentEntry>,
    metadata_position: u64,
)
    requires
        keeps_document(first, second, parameters),
        entries_stand(first, entries, data_start(parameters)),
        attachments_stand(first, attachments, data_start(parameters)),
        metadata_stands(first, parameters, metadata_position),
    ensures
        entries_stand(second, entries, data_start(parameters)),
        attachments_stand(second, attachments, data_start(parameters)),
        metadata_stands(second, parameters, metadata_position),
        forall|i: int|
            0 <= i < entries.len() ==> sub_block_at(
                second,
                (#[trigger] entries[i]).file_position as int,
            ) == sub_block_at(first, entries[i].file_position as int),
        forall|i: int|
            0 <= i < attachments.len() ==> attachment_at(
                second,
                (#[trigger] attachments[i]).file_position as int,
            ) == attachment_at(first, attachments[i].file_position as int),
        metadata_position != 0 ==> metadata_at(second, metadata_position as int) == metadata_at(
            first,
            metadata_position as int,
        ),
{
    let from = data_start(parameters);
    assert forall|i: int| 0 <= i < entries.len() implies entry_stands(
        second,
        #[trigger] entries[i],
        from,
    ) && sub_block_at(second, entries[i].file_position as int) == sub_block_at(
        first,
        entries[i].file_position as int,
    ) by {
        assert(entry_stands(first, entries[i], from));
        lemma_same_bytes_keep_segment(
            first,
            second,
            from,
            first.len() as int,
            entries[i].file_position as int,
            SegmentKind::SubBlock,
        );
    }
    assert forall|i: int| 0 <= i < attachments.len() implies attachment_stands(
        second,
        #[trigger] attachments[i],
        from,
    ) && attachment_at(second, attachments[i].file_position as int) == attachment_at(
        first,
        attachments[i].file_position as int,
    ) by {
        assert(attachment_stands(first, attachments[i], from));
        lemma_same_bytes_keep_segment(
            first,
            second,
            from,
            first.len() as int,
            attachments[i].file_position as int,
            SegmentKind::Attachment,
        );
    }
    if metadata_position != 0 {
        if metadata_position >= from {
            lemma_same_bytes_keep_segment(
                first,
                second,
                from,
                first.len() as int,
                metadata_position as int,
                SegmentKind::Metadata,
            );
        } else {
            lemma_same_bytes_keep_segment(
                first,
                second,
                544,
                544 + room_size(parameters.reserved_size_metadata_segment),
                544,
                SegmentKind::Metadata,
            );
        }
    }
}

impl View for CziWriter {
    type V = WriterView;

    closed spec fn view(&self) -> WriterView {
        WriterView {
            state: self.state,
            allow_duplicate_subblocks: self.allow_duplicate_subblocks,
            parameters: self.parameters,
            stream: self.stream@,
            entries: self.directory@,
            attachments: self.attachments@,
            metadata_position: self.metadata_position,
        }
    }
}

impl CziWriter {
    /// What holds of every writer. A writer that is not bound has written
    /// nothing. In the stream of a bound writer, the segment of every
    /// sub-block and of every attachment that was added stands behind the
    /// rooms, and so does the metadata segment, unless it stands in its
    /// room. The file header of a bound writer that is not closed is the one
    /// that was written when the writer was bound, and points to no
    /// directory. The stream of a closed writer opens as a container with
    /// what was added.
    pub closed spec fn wf(&self) -> bool {
        &&& self.directory.wf()
        &&& self.directory.declared_spec() == self.directory@.len()
        &&& self.attachments@.len() <= i32::MAX
        &&& match self.state {
            WriterState::Created => {
                &&& self.stream@.len() == 0
                &&& self.directory@.len() == 0
                &&& self.attachments@.len() == 0
                &&& self.metadata_position == 0
            },
            _ => {
                &&& data_start(self.parameters) <= self.stream@.len()
                &&& entries_stand(self.stream@, self.directory@, data_start(self.parameters))
                &&& attachments_stand(self.stream@, self.attachments@, data_start(self.parameters))
                &&& metadata_stands(self.stream@, self.parameters, self.metadata_position)
                &&& self.state == WriterState::Initialized ==> header_is_blank(
                    self.stream@,
                    self.parameters,
                )
            },
        }
    }

    /// What a well-formed writer has written.
    pub proof fn lemma_wf(&self)
        requires
            self.wf(),
        ensures
            statistics_fit(self@.entries),
            self@.entries.len() <= i32::MAX,
            self@.attachments.len() <= i32::MAX,
            self@.state == WriterState::Created ==> self@.stream.len() == 0 && self@.entries.len()
                == 0 && self@.attachments.len() == 0 && self@.metadata_position == 0,
            self@.state != WriterState::Created ==> {
                &&& data_start(self@.parameters) <= self@.stream.len()
                &&& entries_stand(self@.stream, self@.entries, data_start(self@.parameters))
                &&& attachments_stand(self@.stream, self@.attachments, data_start(self@.parameters))
                &&& metadata_stands(self@.stream, self@.parameters, self@.metadata_position)
            },
            self@.state == WriterState::Initialized ==> header_is_blank(
                self@.stream,
                self@.parameters,
            ) && open_spec(self@.stream) == Err::<ContainerIndex, LibCZIApiError>(
                LibCZIApiError::CorruptData,
            ),
    {
        self.directory.lemma_wf();
        if self@.state == WriterState::Initialized {
            lemma_unclosed_stream_does_not_open(self@.stream, self@.parameters);
        }
    }

    /// A writer that is not bound to a stream yet, with the given options.
    pub fn create_with_options(options: &WriterOptions) -> (writer: Result<Self, LibCZIApiError>)
        ensures
            writer matches Ok(made) && {
                &&& made.wf()
                &&& made@.state == WriterState::Created
                &&& made@.allow_duplicate_subblocks == options.allow_duplicate_subblocks
                &&& made@.stream.len() == 0
                &&& made@.entries.len() == 0
                &&& made@.attachments.len() == 0
                &&& made@.metadata_position == 0
            },
    {
        Ok(
            CziWriter {
                state: WriterState::Created,
                allow_duplicate_subblocks: options.allow_duplicate_subblocks,
                parameters: WriterParameters {
                    file_guid: [0u8;16],
                    reserved_size_attachments_directory: 0,
                    reserved_size_metadata_segment: 0,
                    minimum_m_index: 0,
                    maximum_m_index: -1,
                },
                stream: OutputStream::new(),
                directory: SubBlockDirectory::new(),
                attachments: Vec::new(),
                metadata_position: 0,
            },
        )
    }

    /// Where the writer stands in its life.
    pub fn state(&self) -> (state: WriterState)
        ensures
            state == self@.state,
    {
        self.state
    }

    /// The stream that the writer writes to.
    pub fn stream(&self) -> (stream: &OutputStream)
        ensures
            stream@ == self@.stream,
    {
        &self.stream
    }

    /// How many sub-blocks were added.
    pub fn sub_block_count(&self) -> (count: usize)
        ensures
            count == self@.entries.len(),
    {
        proof {
            assert(self.directory@.len() == self@.entries.len());
        }
        self.directory_len()
    }

    fn directory_len(&self) -> (count: usize)
        ensures
            count == self.directory@.len(),
    {
        self.directory.len()
    }
}

/// The pixel type and the size of a row of a sub-block that is valid, and
/// `None` for one that is not.
fn check_sub_block(parameters: &WriterParameters, info: &AddSubBlockInfo) -> (checked: Option<
    (PixelType, u64),
>)
    ensures
        checked is Some <==> sub_block_is_valid(*parameters, *info),
        checked matches Some((pixel_type, row)) ==> {
            &&& PixelType::of_code(info.pixel_type as int) == Some(pixel_type)
            &&& row == row_size(*info)
        },
{
    let pixel_type = match PixelType::try_from(info.pixel_type) {
        Ok(found) => found,
        Err(_) => {
            return None;
        },
    };
    if !info.coordinate.is_valid() || info.logical_width < 0 || info.logical_height < 0
        || info.physical_width < 0 || info.physical_height < 0 {
        return None;
    }
    if info.size_data as u64 != info.data.len() as u64 || info.size_metadata as u64
        != info.metadata.len() as u64 || info.size_attachment as u64 != info.attachment.len() as u64 {
        return None;
    }
    if info.m_index_valid != 0 {
        if info.m_index == NO_M_INDEX {
            return None;
        }
        if parameters.minimum_m_index <= parameters.maximum_m_index && (info.m_index
            < parameters.minimum_m_index || info.m_index > parameters.maximum_m_index) {
            return None;
        }
    }
    let width: u64 = info.physical_width as u64;
    let height: u64 = info.physical_height as u64;
    let per_pixel: u64 = pixel_type.bytes_per_pixel() as u64;
    assert(width * per_pixel <= 0x7fff_ffff * 24) by (nonlinear_arith)
        requires
            width <= 0x7fff_ffff,
            per_pixel <= 24,
    ;
    let row: u64 = width * per_pixel;
    if info.compression_mode_raw == COMPRESSION_NONE {
        assert(info.stride as u64 * height <= 0xffff_ffff * 0x7fff_ffff) by (nonlinear_arith)
            requires
                info.stride <= 0xffff_ffff,
                height <= 0x7fff_ffff,
        ;
        if row > info.stride as u64 || info.data.len() as u64 != info.stride as u64 * height {
            return None;
        }
    }
    Some((pixel_type, row))
}

/// Whether a room of the given size would take the writer past what a
/// stream can hold, and the size of the room where it does not.
fn room(reserved: u32) -> (size: u64)
    ensures
        size == room_size(reserved),
{
    if reserved > 0 {
        32 + reserved as u64
    } else {
        0
    }
}

/// A segment that is added at the end of a stream keeps the document, and
/// stands where the stream ended.
proof fn lemma_appended(
    stream: Seq<u8>,
    parameters: WriterParameters,
    kind: SegmentKind,
    payload: Seq<u8>,
)
    requires
        data_start(parameters) <= stream.len(),
        payload.len() <= MAX_SEGMENT_SIZE,
    ensures
        ({
            let after = write_spec(
                stream,
                stream.len() as int,
                segment_bytes(kind, payload, payload.len() as u64),
            );
            &&& after == stream + segment_bytes(kind, payload, payload.len() as u64)
            &&& after.len() == stream.len() + 32 + payload.len()
            &&& keeps_document(stream, after, parameters)
            &&& crate::container::payload_of_kind_at(after, stream.len() as int, kind) == Ok::<
                Seq<u8>,
                LibCZIApiError,
            >(payload)
        }),
{
    let bytes = segment_bytes(kind, payload, payload.len() as u64);
    lemma_write_at_end(stream, bytes);
    lemma_written_segment(stream, stream.len() as int, kind, payload, payload.len() as u64);
    lemma_append_keeps_bytes(stream, bytes, data_start(parameters));
    lemma_append_keeps_bytes(stream, bytes, 544);
    lemma_same_bytes_part(
        stream,
        stream + bytes,
        544,
        stream.len() as int,
        544,
        544 + room_size(parameters.reserved_size_metadata_segment),
    );
}

impl CziWriter {
    /// Binds the writer to an empty stream. The file header is written,
    /// pointing to nothing yet, and behind it the rooms that the parameters
    /// set aside.
    ///
    /// Nothing changes where the call fails.
    pub fn init_with_parameters(&mut self, output_stream: OutputStream, parameters: &WriterParameters) -> (done:
        Result<(), LibCZIApiError>)
        requires
            old(self).wf(),
        ensures
            final(self).wf(),
            done == init_spec(old(self)@, output_stream@, *parameters),
            match done {
                Ok(_) => final(self)@ == (WriterView {
                    state: WriterState::Initialized,
                    parameters: *parameters,
                    stream: initial_stream(*parameters),
                    ..old(self)@
                }),
                Err(_) => final(self)@ == old(self)@,
            },
    {
        if self.state != WriterState::Created || output_stream.size() != 0 {
            return Err(LibCZIApiError::InvalidArgument);
        }
        let metadata_room: u64 = room(parameters.reserved_size_metadata_segment);
        let attachments_room: u64 = room(parameters.reserved_size_attachments_directory);
        let needed: u64 = 544 + metadata_room + attachments_room;
        if needed > usize::MAX as u64 {
            return Err(LibCZIApiError::OutOfMemory);
        }
        let mut stream = output_stream;
        let header = FileHeader {
            info: FileHeaderInfo {
                guid: parameters.file_guid,
                major_version: FORMAT_MAJOR_VERSION,
                minor_version: FORMAT_MINOR_VERSION,
            },
            directory_position: 0,
            metadata_position: 0,
            attachment_directory_position: 0,
        };
        let header_bytes = write_file_header(&header);
        let nothing: Vec<u8> = Vec::new();
        proof {
            let first = header_segment(*parameters, 0, 0, 0);
            lemma_write_at_end(Seq::<u8>::empty(), first);
            lemma_written_segment(
                Seq::<u8>::empty(),
                0,
                SegmentKind::FileHeader,
                file_header_bytes(header),
                512,
            );
            assert(Seq::<u8>::empty() + first =~= first);
            assert(stream@ =~= Seq::<u8>::empty());
        }
        match write_segment(&mut stream, 0, SegmentKind::FileHeader, header_bytes.as_slice(), 512) {
            Ok(_) => {},
            Err(e) => {
                return Err(e);
            },
        }
        assert(stream@ == header_segment(*parameters, 0, 0, 0));
        if parameters.reserved_size_metadata_segment > 0 {
            proof {
                let bytes = room_bytes(parameters.reserved_size_metadata_segment);
                lemma_write_at_end(stream@, bytes);
                lemma_written_segment(
                    stream@,
                    544,
                    SegmentKind::Deleted,
                    Seq::<u8>::empty(),
                    parameters.reserved_size_metadata_segment as u64,
                );
            }
            match write_segment(
                &mut stream,
                544,
                SegmentKind::Deleted,
                nothing.as_slice(),
                parameters.reserved_size_metadata_segment as u64,
            ) {
                Ok(_) => {},
                Err(e) => {
                    return Err(e);
                },
            }
        }
        assert(stream@ =~= header_segment(*parameters, 0, 0, 0) + room_bytes(
            parameters.reserved_size_metadata_segment,
        ));
        assert(stream@.len() == 544 + room_size(parameters.reserved_size_metadata_segment));
        if parameters.reserved_size_attachments_directory > 0 {
            proof {
                let bytes = room_bytes(parameters.reserved_size_attachments_directory);
                lemma_write_at_end(stream@, bytes);
                lemma_written_segment(
                    stream@,
                    stream@.len() as int,
                    SegmentKind::Deleted,
                    Seq::<u8>::empty(),
                    parameters.reserved_size_attachments_directory as u64,
                );
            }
            match write_segment(
                &mut stream,
                544 + metadata_room,
                SegmentKind::Deleted,
                nothing.as_slice(),
                parameters.reserved_size_attachments_directory as u64,
            ) {
                Ok(_) => {},
                Err(e) => {
                    return Err(e);
                },
            }
        }
        assert(stream@ =~= initial_stream(*parameters));
        assert(stream@.len() == data_start(*parameters));
        proof {
            lemma_header_segment_size(*parameters);
            assert(stream@.subrange(0, 544) =~= header_segment(*parameters, 0, 0, 0));
        }
        self.state = WriterState::Initialized;
        self.parameters = *parameters;
        self.stream = stream;
        Ok(())
    }
}

impl CziWriter {
    /// Adds a sub-block: its segment is written at the end of the stream,
    /// and its entry is added to the sub-block directory.
    ///
    /// Data that is not compressed is stored row by row, without the
    /// padding that the stride leaves between the rows. Nothing changes
    /// where the call fails.
    pub fn add_sub_block(&mut self, add_sub_block_info: AddSubBlockInfo) -> (done: Result<
        (),
        LibCZIApiError,
    >)
        requires
            old(self).wf(),
        ensures
            final(self).wf(),
            done == add_sub_block_spec(old(self)@, add_sub_block_info),
            match done {
                Ok(_) => final(self)@ == (WriterView {
                    stream: old(self)@.stream + sub_block_segment(
                        add_sub_block_info,
                        old(self)@.stream.len() as u64,
                    ),
                    entries: old(self)@.entries.push(
                        entry_of(add_sub_block_info, old(self)@.stream.len() as u64),
                    ),
                    ..old(self)@
                }),
                Err(_) => final(self)@ == old(self)@,
            },
    {
        let info = &add_sub_block_info;
        if self.state != WriterState::Initialized {
            return Err(LibCZIApiError::InvalidArgument);
        }
        let (pixel_type, row) = match check_sub_block(&self.parameters, info) {
            Some(checked) => checked,
            None => {
                return Err(LibCZIApiError::InvalidArgument);
            },
        };
        let position: u64 = self.stream.size() as u64;
        let entry = SubBlockDirectoryEntry {
            coordinate: info.coordinate,
            logical_rect: IntRect {
                x: info.x,
                y: info.y,
                w: info.logical_width,
                h: info.logical_height,
            },
            physical_size: IntSize { w: info.physical_width, h: info.physical_height },
            pixel_type: info.pixel_type,
            compression_mode_raw: info.compression_mode_raw,
            m_index_valid: info.m_index_valid != 0,
            m_index: info.m_index,
            file_position: position,
        };
        if !self.allow_duplicate_subblocks && self.directory.contains_identity(&entry) {
            return Err(LibCZIApiError::InvalidArgument);
        }
        if !self.directory.accepts(&entry) {
            return Err(LibCZIApiError::InvalidArgument);
        }
        let stored: Vec<u8> = if info.compression_mode_raw == COMPRESSION_NONE {
            let rows: usize = info.physical_height as usize;
            assert(row * rows <= info.stride * rows) by (nonlinear_arith)
                requires
                    row <= info.stride,
                    rows >= 0,
            ;
            restride_rows(
                info.data.as_slice(),
                info.stride as usize,
                row as usize,
                row as usize,
                rows,
            )
        } else {
            info.data.clone()
        };
        let payload = write_sub_block_payload(
            &entry,
            info.metadata.as_slice(),
            stored.as_slice(),
            info.attachment.as_slice(),
        );
        let ghost content = content_of(*info, position);
        proof {
            assert(stored@ == stored_data(*info));
            assert(payload@ == sub_block_payload(content));
        }
        if payload.len() as u64 > MAX_SEGMENT_SIZE {
            return Err(LibCZIApiError::OutOfMemory);
        }
        let ghost before = self.stream@;
        proof {
            lemma_appended(before, self.parameters, SegmentKind::SubBlock, payload@);
            lemma_sub_block_round_trip(content);
            self.directory.lemma_wf();
        }
        match write_segment(
            &mut self.stream,
            position,
            SegmentKind::SubBlock,
            payload.as_slice(),
            payload.len() as u64,
        ) {
            Ok(_) => {},
            Err(e) => {
                return Err(e);
            },
        }
        proof {
            lemma_write_keeps_bytes(
                before,
                position as int,
                segment_bytes(SegmentKind::SubBlock, payload@, payload@.len() as u64),
                0,
                544,
            );
            lemma_header_stays(before, self.stream@, self.parameters);
        }
        let ghost entries = self.directory@;
        match self.directory.push(entry) {
            Ok(_) => {},
            Err(e) => {
                return Err(e);
            },
        }
        proof {
            let after = self.stream@;
            lemma_document_kept(
                before,
                after,
                self.parameters,
                entries,
                self.attachments@,
                self.metadata_position,
            );
            assert(sub_block_at(after, position as int) == Ok::<SubBlockContent, LibCZIApiError>(
                content,
            ));
            assert forall|i: int| 0 <= i < self.directory@.len() implies entry_stands(
                after,
                #[trigger] self.directory@[i],
                data_start(self.parameters),
            ) by {
                if i < entries.len() {
                    assert(self.directory@[i] == entries[i]);
                    assert(entry_stands(after, entries[i], data_start(self.parameters)));
                }
            }
        }
        Ok(())
    }

    /// Adds an attachment: its segment is written at the end of the stream,
    /// and its entry is added to the attachment directory.
    ///
    /// Nothing changes where the call fails.
    pub fn add_attachement(&mut self, add_attachment_info: AddAttachmentInfo) -> (done: Result<
        (),
        LibCZIApiError,
    >)
        requires
            old(self).wf(),
        ensures
            final(self).wf(),
            done == add_attachment_spec(old(self)@, add_attachment_info),
            match done {
                Ok(_) => final(self)@ == (WriterView {
                    stream: old(self)@.stream + attachment_segment(
                        add_attachment_info,
                        old(self)@.stream.len() as u64,
                    ),
                    attachments: old(self)@.attachments.push(
                        attachment_entry_of(add_attachment_info, old(self)@.stream.len() as u64),
                    ),
                    ..old(self)@
                }),
                Err(_) => final(self)@ == old(self)@,
            },
    {
        let info = &add_attachment_info;
        if self.state != WriterState::Initialized || info.size_attachment_data as u64
            != info.attachment_data.len() as u64 || self.attachments.len() >= i32::MAX as usize {
            return Err(LibCZIApiError::InvalidArgument);
        }
        let position: u64 = self.stream.size() as u64;
        let entry = AttachmentEntry {
            guid: info.guid,
            content_file_type: info.content_file_type,
            name: info.name,
            file_position: position,
        };
        let payload = write_attachment_payload(&entry, info.attachment_data.as_slice());
        let ghost content = AttachmentContent { entry, data: info.attachment_data@ };
        proof {
            lemma_attachment_round_trip(content);
        }
        if payload.len() as u64 > MAX_SEGMENT_SIZE {
            return Err(LibCZIApiError::OutOfMemory);
        }
        let ghost before = self.stream@;
        let ghost attachments = self.attachments@;
        proof {
            lemma_appended(before, self.parameters, SegmentKind::Attachment, payload@);
        }
        match write_segment(
            &mut self.stream,
            position,
            SegmentKind::Attachment,
            payload.as_slice(),
            payload.len() as u64,
        ) {
            Ok(_) => {},
            Err(e) => {
                return Err(e);
            },
        }
        proof {
            lemma_write_keeps_bytes(
                before,
                position as int,
                segment_bytes(SegmentKind::Attachment, payload@, payload@.len() as u64),
                0,
                544,
            );
            lemma_header_stays(before, self.stream@, self.parameters);
        }
        self.attachments.push(entry);
        proof {
            let after = self.stream@;
            lemma_document_kept(
                before,
                after,
                self.parameters,
                self.directory@,
                attachments,
                self.metadata_position,
            );
            assert(attachment_at(after, position as int) == Ok::<
                AttachmentContent,
                LibCZIApiError,
            >(content));
            assert forall|i: int| 0 <= i < self.attachments@.len() implies attachment_stands(
                after,
                #[trigger] self.attachments@[i],
                data_start(self.parameters),
            ) by {
                if i < attachments.len() {
                    assert(self.attachments@[i] == attachments[i]);
                    assert(attachment_stands(after, attachments[i], data_start(self.parameters)));
                }
            }
        }
        Ok(())
    }

    /// Writes the metadata of the document: into the room that was set
    /// aside for it where it fits, and else at the end of the stream. A
    /// document takes metadata once.
    ///
    /// Nothing changes where the call fails.
    pub fn write_metadata(&mut self, write_metadata_info: WriteMetadataInfo) -> (done: Result<
        (),
        LibCZIApiError,
    >)
        requires
            old(self).wf(),
        ensures
            final(self).wf(),
            done == write_metadata_spec(old(self)@, write_metadata_info),
            match done {
                Ok(_) => final(self)@ == (WriterView {
                    stream: write_spec(
                        old(self)@.stream,
                        metadata_place(old(self)@, write_metadata_info),
                        metadata_segment(old(self)@.parameters, write_metadata_info),
                    ),
                    metadata_position: metadata_place(old(self)@, write_metadata_info) as u64,
                    ..old(self)@
                }),
                Err(_) => final(self)@ == old(self)@,
            },
            done is Ok ==> keeps_document_behind_rooms(old(self)@.stream, final(self)@.stream, old(self)@.parameters)
                && metadata_at(final(self)@.stream, final(self)@.metadata_position as int) == Ok::<
                Seq<u8>,
                LibCZIApiError,
            >(write_metadata_info.metadata@),
    {
        let info = &write_metadata_info;
        if self.state != WriterState::Initialized || info.size_metadata as u64
            != info.metadata.len() as u64 || self.metadata_position != 0 {
            return Err(LibCZIApiError::InvalidArgument);
        }
        let payload = write_metadata_payload(info.metadata.as_slice());
        let reserved: u32 = self.parameters.reserved_size_metadata_segment;
        let size: usize = self.stream.size();
        let ghost before = self.stream@;
        proof {
            lemma_metadata_round_trip(info.metadata@);
        }
        if reserved > 0 && payload.len() as u64 <= reserved as u64 {
            proof {
                lemma_written_segment(
                    before,
                    544,
                    SegmentKind::Metadata,
                    payload@,
                    reserved as u64,
                );
                lemma_write_keeps_bytes(
                    before,
                    544,
                    metadata_segment(self.parameters, *info),
                    data_start(self.parameters),
                    before.len() as int,
                );
            }
            match write_segment(
                &mut self.stream,
                544,
                SegmentKind::Metadata,
                payload.as_slice(),
                reserved as u64,
            ) {
                Ok(_) => {},
                Err(e) => {
                    return Err(e);
                },
            }
            proof {
                lemma_write_keeps_bytes(
                    before,
                    544,
                    segment_bytes(SegmentKind::Metadata, payload@, reserved as u64),
                    0,
                    544,
                );
                lemma_header_stays(before, self.stream@, self.parameters);
            }
            self.metadata_position = 544;
            proof {
                let after = self.stream@;
                assert(after.len() == before.len());
                lemma_entries_kept(
                    before,
                    after,
                    self.parameters,
                    self.directory@,
                    self.attachments@,
                );
            }
        } else {
            let position: u64 = self.stream.size() as u64;
            proof {
                lemma_appended(before, self.parameters, SegmentKind::Metadata, payload@);
            }
            match write_segment(
                &mut self.stream,
                position,
                SegmentKind::Metadata,
                payload.as_slice(),
                payload.len() as u64,
            ) {
                Ok(_) => {},
                Err(e) => {
                    return Err(e);
                },
            }
            proof {
                lemma_write_keeps_bytes(
                    before,
                    position as int,
                    segment_bytes(SegmentKind::Metadata, payload@, payload@.len() as u64),
                    0,
                    544,
                );
                lemma_header_stays(before, self.stream@, self.parameters);
            }
            self.metadata_position = position;
            proof {
                let after = self.stream@;
                lemma_entries_kept(
                    before,
                    after,
                    self.parameters,
                    self.directory@,
                    self.attachments@,
                );
            }
        }
        Ok(())
    }
}

/// Whether a stream holds the bytes that an earlier stream held behind the
/// rooms.
pub open spec fn keeps_document_behind_rooms(
    first: Seq<u8>,
    second: Seq<u8>,
    parameters: WriterParameters,
) -> bool {
    &&& data_start(parameters) <= first.len()
    &&& same_bytes(first, second, data_start(parameters), first.len() as int)
}

/// A stream that holds the bytes behind the rooms keeps the segments of
/// the sub-blocks and of the attachments, with what they hold.
pub proof fn lemma_entries_kept(
    first: Seq<u8>,
    second: Seq<u8>,
    parameters: WriterParameters,
    entries: Seq<SubBlockDirectoryEntry>,
    attachments: Seq<AttachmentEntry>,
)
    requires
        keeps_document_behind_rooms(first, second, parameters),
        entries_stand(first, entries, data_start(parameters)),
        attachments_stand(first, attachments, data_start(parameters)),
    ensures
        entries_stand(second, entries, data_start(parameters)),
        attachments_stand(second, attachments, data_start(parameters)),
        forall|i: int|
            0 <= i < entries.len() ==> sub_block_at(
                second,
                (#[trigger] entries[i]).file_position as int,
            ) == sub_block_at(first, entries[i].file_position as int),
        forall|i: int|
            0 <= i < attachments.len() ==> attachment_at(
                second,
                (#[trigger] attachments[i]).file_position as int,
            ) == attachment_at(first, attachments[i].file_position as int),
{
    let from = data_start(parameters);
    assert forall|i: int| 0 <= i < entries.len() implies entry_stands(
        second,
        #[trigger] entries[i],
        from,
    ) && sub_block_at(second, entries[i].file_position as int) == sub_block_at(
        first,
        entries[i].file_position as int,
    ) by {
        assert(entry_stands(first, entries[i], from));
        lemma_same_bytes_keep_segment(
            first,
            second,
            from,
            first.len() as int,
            entries[i].file_position as int,
            SegmentKind::SubBlock,
        );
    }
    assert forall|i: int| 0 <= i < attachments.len() implies attachment_stands(
        second,
        #[trigger] attachments[i],
        from,
    ) && attachment_at(second, attachments[i].file_position as int) == attachment_at(
        first,
        attachments[i].file_position as int,
    ) by {
        assert(attachment_stands(first, attachments[i], from));
        lemma_same_bytes_keep_segment(
            first,
            second,
            from,
            first.len() as int,
            attachments[i].file_position as int,
            SegmentKind::Attachment,
        );
    }
}

/// A document that is closed opens again: a reader finds the file header,
/// the entries of every sub-block and of every attachment that was added,
/// and the closed stream keeps all that the stream held before.
pub proof fn lemma_closed_document_opens(writer: WriterView)
    requires
        writer.state == WriterState::Initialized,
        data_start(writer.parameters) <= writer.stream.len(),
        crate::directory::directory_accepts(writer.entries),
        writer.attachments.len() <= i32::MAX,
        closed_size(writer) <= usize::MAX,
    ensures
        open_spec(closed_stream(writer)) == Ok::<ContainerIndex, LibCZIApiError>(
            closed_index(writer),
        ),
        keeps_document(writer.stream, closed_stream(writer), writer.parameters),
        keeps_document(writer.stream, with_directory(writer), writer.parameters),
        keeps_document(writer.stream, with_directories(writer), writer.parameters),
        with_directory(writer).len() == writer.stream.len() + 32 + 128 + 128 * writer.entries.len(),
        with_directories(writer).len() == closed_size(writer),
        closed_stream(writer).len() == closed_size(writer),
{
    let parameters = writer.parameters;
    let s0 = writer.stream;
    let s1 = with_directory(writer);
    let s2 = with_directories(writer);
    let s3 = closed_stream(writer);
    let from = data_start(parameters);
    let directory = directory_payload(writer.entries, writer.entries.len() as u32);
    let room_end = 544 + room_size(parameters.reserved_size_metadata_segment);
    lemma_directory_round_trip(writer.entries);
    lemma_attachment_directory_round_trip(writer.attachments);
    lemma_file_header_round_trip(closed_header(writer));
    // The sub-block directory stands at the former end of the stream.
    lemma_appended(s0, parameters, SegmentKind::SubBlockDirectory, directory);
    assert(s1 == write_spec(s0, s0.len() as int, directory_segment(writer)));
    let directory_place = s0.len() as int;
    assert(crate::container::payload_of_kind_at(
        s1,
        directory_place,
        SegmentKind::SubBlockDirectory,
    ) == Ok::<Seq<u8>, LibCZIApiError>(directory));
    // The attachment directory is written without touching what stands
    // behind the rooms or in the room of the metadata.
    let attachments = attachment_directory_payload(writer.attachments);
    if writer.attachments.len() == 0 {
        assert(s2 == s1);
        assert(same_bytes(s1, s2, 544, s1.len() as int));
    } else if attachments_fit_room(writer) {
        let place = attachments_room(parameters);
        let reserved = parameters.reserved_size_attachments_directory as u64;
        lemma_written_segment(s1, place, SegmentKind::AttachmentDirectory, attachments, reserved);
        lemma_write_keeps_bytes(s1, place, attachments_segment(writer), from, s1.len() as int);
        lemma_write_keeps_bytes(s1, place, attachments_segment(writer), 544, room_end);
        assert(s2.len() == s1.len());
    } else {
        lemma_written_segment(
            s1,
            s1.len() as int,
            SegmentKind::AttachmentDirectory,
            attachments,
            attachments.len() as u64,
        );
        lemma_write_at_end(s1, attachments_segment(writer));
        lemma_append_keeps_bytes(s1, attachments_segment(writer), 544);
        lemma_same_bytes_part(s1, s2, 544, s1.len() as int, from, s1.len() as int);
        lemma_same_bytes_part(s1, s2, 544, s1.len() as int, 544, room_end);
    }
    assert(same_bytes(s1, s2, from, s1.len() as int));
    assert(same_bytes(s1, s2, 544, room_end));
    // The file header is written over the former one.
    let header_bytes = segment_bytes(
        SegmentKind::FileHeader,
        file_header_bytes(closed_header(writer)),
        512,
    );
    lemma_written_segment(
        s2,
        0,
        SegmentKind::FileHeader,
        file_header_bytes(closed_header(writer)),
        512,
    );
    lemma_write_keeps_bytes(s2, 0, header_bytes, 544, s2.len() as int);
    assert(s3.len() == s2.len());
    assert(crate::container::file_header_of(s3) == Ok::<FileHeader, LibCZIApiError>(
        closed_header(writer),
    ));
    // Both directories still stand after the file header was written.
    lemma_same_bytes_chain(s1, s2, s3, from, s1.len() as int);
    lemma_same_bytes_keep_segment(
        s1,
        s3,
        from,
        s1.len() as int,
        directory_place,
        SegmentKind::SubBlockDirectory,
    );
    if writer.attachments.len() > 0 {
        lemma_same_bytes_keep_segment(
            s2,
            s3,
            544,
            s2.len() as int,
            attachments_place(writer),
            SegmentKind::AttachmentDirectory,
        );
        assert(crate::container::attachments_of(s3, closed_header(writer)) == Ok::<
            Seq<AttachmentEntry>,
            LibCZIApiError,
        >(writer.attachments));
    } else {
        assert(crate::container::attachments_of(s3, closed_header(writer)) == Ok::<
            Seq<AttachmentEntry>,
            LibCZIApiError,
        >(writer.attachments));
    }
    // The closed stream keeps what the stream held before.
    lemma_same_bytes_part(s1, s3, from, s1.len() as int, from, s0.len() as int);
    lemma_same_bytes_chain(s0, s1, s3, from, s0.len() as int);
    lemma_same_bytes_part(s2, s3, 544, s2.len() as int, 544, room_end);
    lemma_same_bytes_chain(s1, s2, s3, 544, room_end);
    lemma_same_bytes_chain(s0, s1, s3, 544, room_end);
    lemma_same_bytes_part(s1, s2, from, s1.len() as int, from, s0.len() as int);
    lemma_same_bytes_chain(s0, s1, s2, from, s0.len() as int);
    lemma_same_bytes_chain(s0, s1, s2, 544, room_end);
}

impl CziWriter {
    /// Closes the document: the sub-block directory is written at the end
    /// of the stream, the attachment directory into its room or behind the
    /// sub-block directory, and the file header, with the places of both
    /// and of the metadata, over the one that was written first.
    ///
    /// The closed stream opens as a container that holds every sub-block
    /// and every attachment that was added. Nothing changes where the call
    /// fails.
    pub fn close(&mut self) -> (done: Result<(), LibCZIApiError>)
        requires
            old(self).wf(),
        ensures
            final(self).wf(),
            done == close_spec(old(self)@),
            match done {
                Ok(_) => {
                    &&& final(self)@ == (WriterView {
                        state: WriterState::Finalized,
                        stream: closed_stream(old(self)@),
                        ..old(self)@
                    })
                    &&& open_spec(final(self)@.stream) == Ok::<ContainerIndex, LibCZIApiError>(
                        closed_index(old(self)@),
                    )
                    &&& keeps_document(
                        old(self)@.stream,
                        final(self)@.stream,
                        old(self)@.parameters,
                    )
                },
                Err(_) => final(self)@ == old(self)@,
            },
    {
        if self.state != WriterState::Initialized {
            return Err(LibCZIApiError::InvalidArgument);
        }
        let size: usize = self.stream.size();
        let count: usize = self.directory.len();
        let attachment_count: usize = self.attachments.len();
        let reserved: u32 = self.parameters.reserved_size_attachments_directory;
        proof {
            self.directory.lemma_wf();
        }
        let directory_total: u64 = 32 + 128 + 128 * count as u64;
        let attachments_needed: u64 = 256 + 128 * attachment_count as u64;
        let in_room: bool = reserved > 0 && attachments_needed <= reserved as u64;
        let attachments_total: u64 = if attachment_count == 0 || in_room {
            0
        } else {
            32 + attachments_needed
        };
        if directory_total + attachments_total > usize::MAX as u64 - size as u64 {
            return Err(LibCZIApiError::OutOfMemory);
        }
        let ghost before = self@;
        proof {
            lemma_closed_document_opens(before);
            lemma_directory_round_trip(before.entries);
            lemma_attachment_directory_round_trip(before.attachments);
        }
        let directory_payload = self.directory.to_payload();
        match write_segment(
            &mut self.stream,
            size as u64,
            SegmentKind::SubBlockDirectory,
            directory_payload.as_slice(),
            directory_payload.len() as u64,
        ) {
            Ok(_) => {},
            Err(e) => {
                return Err(e);
            },
        }
        proof {
            lemma_write_at_end(before.stream, directory_segment(before));
            assert(self.stream@ == with_directory(before));
        }
        let attachments_position: u64 = if attachment_count == 0 {
            0
        } else {
            let attachments_payload = write_attachment_directory(&self.attachments);
            let place: u64 = if in_room {
                544 + room(self.parameters.reserved_size_metadata_segment)
            } else {
                size as u64 + directory_total
            };
            let allocated: u64 = if in_room {
                reserved as u64
            } else {
                attachments_payload.len() as u64
            };
            match write_segment(
                &mut self.stream,
                place,
                SegmentKind::AttachmentDirectory,
                attachments_payload.as_slice(),
                allocated,
            ) {
                Ok(_) => {},
                Err(e) => {
                    return Err(e);
                },
            }
            place
        };
        proof {
            assert(attachments_position == attachments_place(before));
            assert(self.stream@ == with_directories(before));
        }
        let header = FileHeader {
            info: FileHeaderInfo {
                guid: self.parameters.file_guid,
                major_version: FORMAT_MAJOR_VERSION,
                minor_version: FORMAT_MINOR_VERSION,
            },
            directory_position: size as u64,
            metadata_position: self.metadata_position,
            attachment_directory_position: attachments_position,
        };
        let header_bytes = write_file_header(&header);
        match write_segment(
            &mut self.stream,
            0,
            SegmentKind::FileHeader,
            header_bytes.as_slice(),
            512,
        ) {
            Ok(_) => {},
            Err(e) => {
                return Err(e);
            },
        }
        self.state = WriterState::Finalized;
        proof {
            assert(header == closed_header(before));
            assert(self.stream@ == closed_stream(before));
            lemma_document_kept(
                before.stream,
                self.stream@,
                self.parameters,
                self.directory@,
                self.attachments@,
                self.metadata_position,
            );
        }
        Ok(())
    }

    /// Gives the writer up and hands its stream out. The call always
    /// succeeds. Nothing is written: a writer that was bound and not closed
    /// leaves a stream whose file header points to no directory, and that
    /// stream does not open as a container.
    pub fn release(self) -> (stream: Result<OutputStream, LibCZIApiError>)
        requires
            self.wf(),
        ensures
            stream matches Ok(left) && left@ == self@.stream,
            self@.state == WriterState::Initialized ==> open_spec(self@.stream) == Err::<
                ContainerIndex,
                LibCZIApiError,
            >(LibCZIApiError::CorruptData),
    {
        proof {
            self.lemma_wf();
        }
        Ok(self.stream)
    }
}

/// Holding the bytes behind the rooms carries over from stream to stream.
pub proof fn lemma_keeps_behind_rooms_chain(
    first: Seq<u8>,
    second: Seq<u8>,
    third: Seq<u8>,
    parameters: WriterParameters,
)
    requires
        keeps_document_behind_rooms(first, second, parameters),
        keeps_document_behind_rooms(second, third, parameters),
    ensures
        keeps_document_behind_rooms(first, third, parameters),
{
}

/// Writing and reading are inverse to each other.
///
/// Take a sub-block that a bound writer accepts, and any stream that holds
/// the bytes behind the rooms of the stream right after the sub-block was
/// added: the stream after more was added, or the closed one. A reader that
/// finds the entry of the sub-block at a place of the directory reads the
/// sub-block there as it was added, with its metadata and its attachment.
/// Compressed data comes back as it was given. Data that is not compressed
/// decodes to a bitmap of the stored width and height whose pixels are the
/// rows of the data that was given, and the very data that was given where
/// its rows had no padding between them.
pub proof fn lemma_written_sub_block_is_read_back(
    writer: WriterView,
    info: AddSubBlockInfo,
    later: Seq<u8>,
    index: ContainerIndex,
    place: i32,
)
    requires
        data_start(writer.parameters) <= writer.stream.len(),
        add_sub_block_spec(writer, info) is Ok,
        keeps_document_behind_rooms(
            writer.stream + sub_block_segment(info, writer.stream.len() as u64),
            later,
            writer.parameters,
        ),
        0 <= place < index.entries.len() <= index.declared,
        index.entries[place as int] == entry_of(info, writer.stream.len() as u64),
    ensures
        read_sub_block_spec(later, index, place) == Ok::<Option<SubBlockContent>, LibCZIApiError>(
            Some(content_of(info, writer.stream.len() as u64)),
        ),
        info.compression_mode_raw != COMPRESSION_NONE ==> content_of(
            info,
            writer.stream.len() as u64,
        ).data == info.data@,
        info.compression_mode_raw == COMPRESSION_NONE ==> {
            &&& decode_spec(content_of(info, writer.stream.len() as u64)) == Ok::<
                (BitmapInfo, u32),
                LibCZIApiError,
            >(
                (
                    BitmapInfo {
                        width: info.physical_width as u32,
                        height: info.physical_height as u32,
                        pixel_type: info.pixel_type,
                    },
                    row_size(info) as u32,
                ),
            )
            &&& content_of(info, writer.stream.len() as u64).data == restride(
                info.data@,
                info.stride as int,
                row_size(info),
                row_size(info),
                info.physical_height as nat,
            )
            &&& info.stride == row_size(info) ==> content_of(
                info,
                writer.stream.len() as u64,
            ).data == info.data@
        },
{
    let position = writer.stream.len() as u64;
    let content = content_of(info, position);
    let payload = sub_block_payload(content);
    let added = writer.stream + sub_block_segment(info, position);
    if info.compression_mode_raw == COMPRESSION_NONE {
        lemma_restride_len(
            info.data@,
            info.stride as int,
            row_size(info),
            row_size(info),
            info.physical_height as nat,
        );
        if info.stride == row_size(info) {
            lemma_restride_without_padding(
                info.data@,
                row_size(info),
                info.physical_height as nat,
            );
        }
    }
    assert(sub_block_sizes_fit(content));
    lemma_sub_block_round_trip(content);
    lemma_appended(writer.stream, writer.parameters, SegmentKind::SubBlock, payload);
    assert(sub_block_at(added, position as int) == Ok::<SubBlockContent, LibCZIApiError>(content));
    lemma_same_bytes_keep_segment(
        added,
        later,
        data_start(writer.parameters),
        added.len() as int,
        position as int,
        SegmentKind::SubBlock,
    );
}

/// Pixels that were compressed are decoded again.
///
/// Take a sub-block that a bound writer accepts, in the first manner of
/// compression with Zstandard, whose data is a frame that holds as many
/// rows of pixels as the stored height says. The sub-block that is read
/// back decodes without error, to a bitmap of the stored width and height
/// with those pixels.
pub proof fn lemma_compressed_sub_block_is_decoded(
    writer: WriterView,
    info: AddSubBlockInfo,
    pixels: Seq<u8>,
)
    requires
        add_sub_block_spec(writer, info) is Ok,
        info.compression_mode_raw == COMPRESSION_ZSTD0,
        frame_content(info.data@) == Some(pixels),
        pixels.len() == row_size(info) * info.physical_height,
        row_size(info) <= u32::MAX,
    ensures
        pixels_of(content_of(info, writer.stream.len() as u64)) == Ok::<Seq<u8>, LibCZIApiError>(
            pixels,
        ),
        decode_spec(content_of(info, writer.stream.len() as u64)) == Ok::<
            (BitmapInfo, u32),
            LibCZIApiError,
        >(
            (
                BitmapInfo {
                    width: info.physical_width as u32,
                    height: info.physical_height as u32,
                    pixel_type: info.pixel_type,
                },
                row_size(info) as u32,
            ),
        ),
{
}

/// Pixels that were stored in a frame are decoded again.
///
/// Take a sub-block that a bound writer accepts, in the first manner of
/// compression with Zstandard, whose data is the frame that stores as many
/// rows of pixels as the stored height says. The sub-block that is read
/// back decodes without error, to a bitmap of the stored width and height
/// with those pixels.
pub proof fn lemma_stored_sub_block_is_decoded(
    writer: WriterView,
    info: AddSubBlockInfo,
    pixels: Seq<u8>,
)
    requires
        add_sub_block_spec(writer, info) is Ok,
        info.compression_mode_raw == COMPRESSION_ZSTD0,
        info.data@ == stored_frame(pixels),
        pixels.len() == row_size(info) * info.physical_height,
        row_size(info) <= u32::MAX,
    ensures
        pixels_of(content_of(info, writer.stream.len() as u64)) == Ok::<Seq<u8>, LibCZIApiError>(
            pixels,
        ),
        decode_spec(content_of(info, writer.stream.len() as u64)) == Ok::<
            (BitmapInfo, u32),
            LibCZIApiError,
        >(
            (
                BitmapInfo {
                    width: info.physical_width as u32,
                    height: info.physical_height as u32,
                    pixel_type: info.pixel_type,
                },
                row_size(info) as u32,
            ),
        ),
{
    let content = content_of(info, writer.stream.len() as u64);
    assert(row_size(info) * info.physical_height <= 0xffff_ffff * 0x7fff_ffff) by (nonlinear_arith)
        requires
            0 <= row_size(info) <= 0xffff_ffff,
            0 <= info.physical_height <= 0x7fff_ffff,
    ;
    lemma_stored_pixels_are_decoded(content, pixels);
}

/// An attachment that was written is read back.
///
/// Take an attachment that a bound writer accepts, and any stream that
/// holds the bytes behind the rooms of the stream right after the
/// attachment was added. A reader that finds the entry of the attachment at
/// a place of the attachment directory reads the attachment there with the
/// payload that was given.
pub proof fn lemma_written_attachment_is_read_back(
    writer: WriterView,
    info: AddAttachmentInfo,
    later: Seq<u8>,
    index: ContainerIndex,
    place: i32,
)
    requires
        data_start(writer.parameters) <= writer.stream.len(),
        add_attachment_spec(writer, info) is Ok,
        keeps_document_behind_rooms(
            writer.stream + attachment_segment(info, writer.stream.len() as u64),
            later,
            writer.parameters,
        ),
        0 <= place < index.attachments.len(),
        index.attachments[place as int] == attachment_entry_of(info, writer.stream.len() as u64),
    ensures
        read_attachment_spec(later, index, place) == Ok::<
            Option<AttachmentContent>,
            LibCZIApiError,
        >(
            Some(
                AttachmentContent {
                    entry: attachment_entry_of(info, writer.stream.len() as u64),
                    data: info.attachment_data@,
                },
            ),
        ),
{
    let position = writer.stream.len() as u64;
    let content = AttachmentContent {
        entry: attachment_entry_of(info, position),
        data: info.attachment_data@,
    };
    let payload = attachment_payload(content);
    let added = writer.stream + attachment_segment(info, position);
    lemma_attachment_round_trip(content);
    lemma_appended(writer.stream, writer.parameters, SegmentKind::Attachment, payload);
    assert(attachment_at(added, position as int) == Ok::<AttachmentContent, LibCZIApiError>(
        content,
    ));
    lemma_same_bytes_keep_segment(
        added,
        later,
        data_start(writer.parameters),
        added.len() as int,
        position as int,
        SegmentKind::Attachment,
    );
}

/// The value of one of the sixteen hexadecimal digits, and `None` for a
/// byte that is no such digit.
pub open spec fn hex_value(byte: u8) -> Option<int> {
    if 48 <= byte <= 57 {
        Some(byte - 48)
    } else if 97 <= byte <= 102 {
        Some(byte - 87)
    } else if 65 <= byte <= 70 {
        Some(byte - 55)
    } else {
        None
    }
}

/// Where the digit with the given number stands in the text of an
/// identifier: the digits stand in groups of 8, 4, 4, 4 and 12, with a
/// hyphen between the groups.
pub open spec fn guid_digit_place(digit: int) -> int {
    digit + if digit >= 20 {
        4int
    } else if digit >= 16 {
        3int
    } else if digit >= 12 {
        2int
    } else if digit >= 8 {
        1int
    } else {
        0int
    }
}

/// Whether a text is an identifier of the form
/// `123e4567-e89b-12d3-a456-426614174000`.
pub open spec fn is_guid_text(text: Seq<u8>) -> bool {
    &&& text.len() == 36
    &&& text[8] == 45 && text[13] == 45 && text[18] == 45 && text[23] == 45
    &&& forall|digit: int|
        0 <= digit < 32 ==> hex_value(#[trigger] text[guid_digit_place(digit)]) is Some
}

/// The sixteen bytes that the text of an identifier stands for: each byte
/// is given by two digits, in the order of the text.
pub open spec fn guid_bytes(text: Seq<u8>) -> Seq<u8> {
    Seq::new(
        16,
        |i: int|
            (16 * hex_value(text[guid_digit_place(2 * i)])->0 + hex_value(
                text[guid_digit_place(2 * i + 1)],
            )->0) as u8,
    )
}

/// The value of a hexadecimal digit.
pub fn hex_digit(byte: u8) -> (value: Option<u8>)
    ensures
        match value {
            Some(found) => hex_value(byte) == Some(found as int) && found < 16,
            None => hex_value(byte) is None,
        },
{
    if byte >= 48 && byte <= 57 {
        Some(byte - 48)
    } else if byte >= 97 && byte <= 102 {
        Some(byte - 87)
    } else if byte >= 65 && byte <= 70 {
        Some(byte - 55)
    } else {
        None
    }
}

/// The sixteen bytes that the text of an identifier stands for, or `None`
/// where the text is no identifier.
pub fn parse_guid(text: &[u8]) -> (guid: Option<[u8; 16]>)
    ensures
        match guid {
            Some(found) => is_guid_text(text@) && found@ == guid_bytes(text@),
            None => !is_guid_text(text@),
        },
{
    if text.len() != 36 || text[8] != 45 || text[13] != 45 || text[18] != 45 || text[23] != 45 {
        return None;
    }
    let mut guid: [u8; 16] = [0u8;16];
    let mut i: usize = 0;
    while i < 16
        invariant
            i <= 16,
            text@.len() == 36,
            forall|digit: int|
                0 <= digit < 2 * i ==> hex_value(#[trigger] text@[guid_digit_place(digit)]) is Some,
            forall|k: int| 0 <= k < i ==> guid@[k] == guid_bytes(text@)[k],
        decreases 16 - i,
    {
        let first: usize = 2 * i;
        let skip: usize = if first >= 20 {
            4
        } else if first >= 16 {
            3
        } else if first >= 12 {
            2
        } else if first >= 8 {
            1
        } else {
            0
        };
        assert(first + skip == guid_digit_place(first as int));
        assert(first + 1 + skip == guid_digit_place(first + 1));
        let high = match hex_digit(text[first + skip]) {
            Some(found) => found,
            None => {
                assert(hex_value(text@[guid_digit_place(first as int)]) is None);
                return None;
            },
        };
        let low = match hex_digit(text[first + 1 + skip]) {
            Some(found) => found,
            None => {
                assert(hex_value(text@[guid_digit_place(first + 1)]) is None);
                return None;
            },
        };
        guid[i] = 16 * high + low;
        assert forall|digit: int| 0 <= digit < 2 * (i + 1) implies hex_value(
            #[trigger] text@[guid_digit_place(digit)],
        ) is Some by {
            if digit == first {
            } else if digit == first + 1 {
            }
        }
        i = i + 1;
    }
    assert(guid@ =~= guid_bytes(text@));
    Some(guid)
}

/// The options that a JSON text states.
///
/// The text is an object. Its member `allow_duplicate_subblocks` is a truth
/// value; without it, duplicates are not allowed. Other members are passed
/// over. `InvalidArgument` for a text that is no object, and for a member
/// of another kind.
pub open spec fn writer_options_spec(text: Seq<u8>) -> Result<WriterOptions, LibCZIApiError> {
    match object_of(text) {
        None => Err(LibCZIApiError::InvalidArgument),
        Some(members) => match value_of(
            members,
            "allow_duplicate_subblocks".spec_bytes(),
            members.len(),
        ) {
            None => Ok(WriterOptions { allow_duplicate_subblocks: false }),
            Some(JsonValueView::Bool(allowed)) => Ok(
                WriterOptions { allow_duplicate_subblocks: allowed },
            ),
            Some(_) => Err(LibCZIApiError::InvalidArgument),
        },
    }
}

/// The number that the member with the given key states, `absent` where
/// there is no such member, and `InvalidArgument` where the member is no
/// number or a number outside the given bounds.
pub open spec fn number_member(
    members: Seq<JsonMemberView>,
    key: Seq<u8>,
    low: int,
    high: int,
    absent: int,
) -> Result<int, LibCZIApiError> {
    match value_of(members, key, members.len()) {
        None => Ok(absent),
        Some(JsonValueView::Number(found)) => if low <= found <= high {
            Ok(found)
        } else {
            Err(LibCZIApiError::InvalidArgument)
        },
        Some(_) => Err(LibCZIApiError::InvalidArgument),
    }
}

/// The identifier that the member `file_guid` states, sixteen zero bytes
/// where there is no such member, and `InvalidArgument` where the member is
/// no text of an identifier.
pub open spec fn guid_member(members: Seq<JsonMemberView>) -> Result<Seq<u8>, LibCZIApiError> {
    match value_of(members, "file_guid".spec_bytes(), members.len()) {
        None => Ok(Seq::new(16, |i: int| 0u8)),
        Some(JsonValueView::Text(text)) => if is_guid_text(text) {
            Ok(guid_bytes(text))
        } else {
            Err(LibCZIApiError::InvalidArgument)
        },
        Some(_) => Err(LibCZIApiError::InvalidArgument),
    }
}

/// The parameters that a JSON text states.
///
/// The text is an object with these members, each of which may be missing:
/// `file_guid`, the identifier of the document as a text, all zeros
/// without it; `reserved_size_attachments_directory` and
/// `reserved_size_metadata_segment`, two sizes, 0 without them;
/// `minimum_m_index` and `maximum_m_index`, the bounds of the M-index, none
/// without them. Other members are passed over. `InvalidArgument` for a
/// text that is no object, and for a member of another kind or beyond its
/// bounds.
pub open spec fn writer_parameters_spec(text: Seq<u8>) -> Result<WriterParameters, LibCZIApiError> {
    match object_of(text) {
        None => Err(LibCZIApiError::InvalidArgument),
        Some(members) => match (
            guid_member(members),
            number_member(
                members,
                "reserved_size_attachments_directory".spec_bytes(),
                0,
                u32::MAX as int,
                0,
            ),
            number_member(
                members,
                "reserved_size_metadata_segment".spec_bytes(),
                0,
                u32::MAX as int,
                0,
            ),
            number_member(
                members,
                "minimum_m_index".spec_bytes(),
                i32::MIN as int,
                i32::MAX as int,
                0,
            ),
            number_member(
                members,
                "maximum_m_index".spec_bytes(),
                i32::MIN as int,
                i32::MAX as int,
                -1,
            ),
        ) {
            (Ok(guid), Ok(attachments), Ok(metadata), Ok(minimum), Ok(maximum)) => Ok(
                WriterParameters {
                    file_guid: array_of::<16>(guid),
                    reserved_size_attachments_directory: attachments as u32,
                    reserved_size_metadata_segment: metadata as u32,
                    minimum_m_index: minimum as i32,
                    maximum_m_index: maximum as i32,
                },
            ),
            _ => Err(LibCZIApiError::InvalidArgument),
        },
    }
}

/// The number that the member with the given key states.
fn read_number_member(members: &Vec<JsonMember>, key: &str, low: i64, high: i64, absent: i64) -> (number:
    Result<i64, LibCZIApiError>)
    requires
        low <= absent <= high,
    ensures
        match number {
            Ok(found) => number_member(
                member_views(members@),
                key.spec_bytes(),
                low as int,
                high as int,
                absent as int,
            ) == Ok::<int, LibCZIApiError>(found as int) && low <= found <= high,
            Err(e) => number_member(
                member_views(members@),
                key.spec_bytes(),
                low as int,
                high as int,
                absent as int,
            ) == Err::<int, LibCZIApiError>(e),
        },
{
    match find_member(members, key.as_bytes()) {
        None => Ok(absent),
        Some(place) => match &members[place].value {
            JsonValue::Number(found) => if low <= *found && *found <= high {
                Ok(*found)
            } else {
                Err(LibCZIApiError::InvalidArgument)
            },
            _ => Err(LibCZIApiError::InvalidArgument),
        },
    }
}

/// The options that a JSON text states.
pub fn parse_writer_options(text: &str) -> (options: Result<WriterOptions, LibCZIApiError>)
    ensures
        options == writer_options_spec(text.spec_bytes()),
{
    let members = match read_object(text.as_bytes()) {
        Ok(found) => found,
        Err(e) => {
            return Err(e);
        },
    };
    match find_member(&members, "allow_duplicate_subblocks".as_bytes()) {
        None => Ok(WriterOptions { allow_duplicate_subblocks: false }),
        Some(place) => match &members[place].value {
            JsonValue::Bool(allowed) => Ok(WriterOptions { allow_duplicate_subblocks: *allowed }),
            _ => Err(LibCZIApiError::InvalidArgument),
        },
    }
}

/// The parameters that a JSON text states.
pub fn parse_writer_parameters(text: &str) -> (parameters: Result<WriterParameters, LibCZIApiError>)
    ensures
        parameters == writer_parameters_spec(text.spec_bytes()),
{
    let members = match read_object(text.as_bytes()) {
        Ok(found) => found,
        Err(e) => {
            return Err(e);
        },
    };
    let file_guid: Result<[u8; 16], LibCZIApiError> = match find_member(
        &members,
        "file_guid".as_bytes(),
    ) {
        None => {
            let zeros: [u8; 16] = [0u8;16];
            assert(zeros@ =~= Seq::new(16, |i: int| 0u8));
            Ok(zeros)
        },
        Some(place) => match &members[place].value {
            JsonValue::Text(text) => match parse_guid(text.as_slice()) {
                Some(found) => Ok(found),
                None => Err(LibCZIApiError::InvalidArgument),
            },
            _ => Err(LibCZIApiError::InvalidArgument),
        },
    };
    let attachments = read_number_member(
        &members,
        "reserved_size_attachments_directory",
        0,
        u32::MAX as i64,
        0,
    );
    let metadata = read_number_member(
        &members,
        "reserved_size_metadata_segment",
        0,
        u32::MAX as i64,
        0,
    );
    let minimum = read_number_member(&members, "minimum_m_index", i32::MIN as i64, i32::MAX as i64, 0);
    let maximum = read_number_member(
        &members,
        "maximum_m_index",
        i32::MIN as i64,
        i32::MAX as i64,
        -1,
    );
    match (file_guid, attachments, metadata, minimum, maximum) {
        (Ok(guid), Ok(attachments), Ok(metadata), Ok(minimum), Ok(maximum)) => {
            proof {
                lemma_array_of::<16>(guid);
            }
            Ok(
                WriterParameters {
                    file_guid: guid,
                    reserved_size_attachments_directory: attachments as u32,
                    reserved_size_metadata_segment: metadata as u32,
                    minimum_m_index: minimum as i32,
                    maximum_m_index: maximum as i32,
                },
            )
        },
        _ => Err(LibCZIApiError::InvalidArgument),
    }
}

impl CziWriter {
    /// A writer that is not bound to a stream yet, with the options that a
    /// JSON text states. Fails with `InvalidArgument` where the text states
    /// no options; see `writer_options_spec`.
    pub fn create(options: &str) -> (writer: Result<Self, LibCZIApiError>)
        ensures
            match writer {
                Ok(made) => {
                    &&& writer_options_spec(options.spec_bytes()) matches Ok(stated)
                    &&& made.wf()
                    &&& made@.state == WriterState::Created
                    &&& made@.allow_duplicate_subblocks == stated.allow_duplicate_subblocks
                    &&& made@.stream.len() == 0
                    &&& made@.entries.len() == 0
                    &&& made@.attachments.len() == 0
                    &&& made@.metadata_position == 0
                },
                Err(e) => writer_options_spec(options.spec_bytes()) == Err::<
                    WriterOptions,
                    LibCZIApiError,
                >(e),
            },
    {
        match parse_writer_options(options) {
            Ok(stated) => CziWriter::create_with_options(&stated),
            Err(e) => Err(e),
        }
    }

    /// Binds the writer to an empty stream, with the parameters that a JSON
    /// text states. Fails with `InvalidArgument` where the text states no
    /// parameters, see `writer_parameters_spec`, and else as
    /// `init_with_parameters` does. Nothing changes where the call fails.
    pub fn init(&mut self, output_stream: OutputStream, parameters: &str) -> (done: Result<
        (),
        LibCZIApiError,
    >)
        requires
            old(self).wf(),
        ensures
            final(self).wf(),
            match writer_parameters_spec(parameters.spec_bytes()) {
                Err(e) => done == Err::<(), LibCZIApiError>(e) && final(self)@ == old(self)@,
                Ok(stated) => {
                    &&& done == init_spec(old(self)@, output_stream@, stated)
                    &&& match done {
                        Ok(_) => final(self)@ == (WriterView {
                            state: WriterState::Initialized,
                            parameters: stated,
                            stream: initial_stream(stated),
                            ..old(self)@
                        }),
                        Err(_) => final(self)@ == old(self)@,
                    }
                },
            },
    {
        match parse_writer_parameters(parameters) {
            Ok(stated) => self.init_with_parameters(output_stream, &stated),
            Err(e) => Err(e),
        }
    }
}

} // verus!
