//! The reader: it opens a container and hands out what stands in it.

use crate::attachment::{
    info_content_file_type, info_name, read_attachment_directory, read_attachment_payload,
    Attachment, AttachmentContent, AttachmentEntry, AttachmentInfo,
};
use crate::container::{
    attachment_at, attachments_of, metadata_at, open_spec, payload_of_kind_at,
    sub_block_at, ContainerIndex,
};
use crate::directory::{
    lemma_parse_directory_error, lookup_spec, statistics_ex_holds, SubBlockDirectory,
};
use crate::error::LibCZIApiError;
use crate::header::{read_file_header, FileHeader, FileHeaderInfo};
use crate::metadata::{read_metadata_payload, MetadataSegment};
use crate::pyramid::{
    pyramid_json, pyramid_layers, pyramid_statistics, pyramid_statistics_json,
    PyramidLayerStatistics,
};
use crate::segment::{read_segment_of_kind, SegmentKind};
use crate::statistics::{is_statistics_of, SubBlockStatistics, SubBlockStatisticsEx};
use crate::stream::{InputStream, ReaderOpenInfo};
use crate::subblock::{
    read_sub_block_payload, SubBlock, SubBlockContent, SubBlockInfo,
};
use crate::tiles::SingleChannelScalingTileAccessor;
use vstd::prelude::*;
use vstd::slice::slice_subrange;

verus! {

/// A reader of documents.
#[derive(Debug)]
pub struct CziReader {
    opened: bool,
    stream: InputStream,
    header: FileHeader,
    directory: SubBlockDirectory,
    attachments: Vec<AttachmentEntry>,
}

/// The payload of the segment of the given kind at `offset`.
pub fn read_payload(stream: &[u8], offset: u64, kind: SegmentKind) -> (payload: Result<
    &[u8],
    LibCZIApiError,
>)
    ensures
        match payload {
            Ok(found) => payload_of_kind_at(stream@, offset as int, kind) == Ok::<
                Seq<u8>,
                LibCZIApiError,
            >(found@),
            Err(e) => payload_of_kind_at(stream@, offset as int, kind) == Err::<
                Seq<u8>,
                LibCZIApiError,
            >(e),
        },
{
    let size: usize = stream.len();
    match read_segment_of_kind(stream, offset, kind) {
        Err(e) => Err(e),
        Ok(header) => {
            let start: usize = offset as usize + 32;
            Ok(slice_subrange(stream, start, start + header.used_size as usize))
        },
    }
}

/// What reading the sub-block at a place gives.
///
/// A place outside the declared places gives `IndexOutOfRange`, a declared
/// place past the last entry gives no sub-block, and every other place
/// gives the sub-block whose segment stands where the entry says, or the
/// error that reading the segment gives.
pub open spec fn read_sub_block_spec(stream: Seq<u8>, index: ContainerIndex, place: i32) -> Result<
    Option<SubBlockContent>,
    LibCZIApiError,
> {
    if place < 0 || place >= index.declared {
        Err(LibCZIApiError::IndexOutOfRange)
    } else if place >= index.entries.len() {
        Ok(None)
    } else {
        match sub_block_at(stream, index.entries[place as int].file_position as int) {
            Err(e) => Err(e),
            Ok(content) => Ok(Some(content)),
        }
    }
}

/// What reading the attachment at a place gives: no attachment for a place
/// that the attachment directory does not have, and else the attachment
/// whose segment stands where the entry says, or the error that reading
/// the segment gives.
pub open spec fn read_attachment_spec(stream: Seq<u8>, index: ContainerIndex, place: i32) -> Result<
    Option<AttachmentContent>,
    LibCZIApiError,
> {
    if place < 0 || place >= index.attachments.len() {
        Ok(None)
    } else {
        match attachment_at(stream, index.attachments[place as int].file_position as int) {
            Err(e) => Err(e),
            Ok(content) => Ok(Some(content)),
        }
    }
}

/// What asking for the metadata gives: `InvalidArgument` where the file
/// header points to no metadata segment, and else the XML text of the
/// segment, or the error that reading it gives.
pub open spec fn read_metadata_spec(stream: Seq<u8>, index: ContainerIndex) -> Result<
    Seq<u8>,
    LibCZIApiError,
> {
    if index.header.metadata_position == 0 {
        Err(LibCZIApiError::InvalidArgument)
    } else {
        metadata_at(stream, index.header.metadata_position as int)
    }
}

impl CziReader {
    /// Whether a container was opened.
    pub closed spec fn is_open_spec(&self) -> bool {
        self.opened
    }

    /// The bytes of the container.
    pub closed spec fn stream_spec(&self) -> Seq<u8> {
        self.stream@
    }

    /// What the reader found when it opened the container.
    pub closed spec fn index_spec(&self) -> ContainerIndex {
        ContainerIndex {
            header: self.header,
            entries: self.directory@,
            declared: self.directory.declared_spec(),
            attachments: self.attachments@,
        }
    }

    /// What holds of every reader: what it keeps is what opening its stream
    /// gives.
    pub closed spec fn wf(&self) -> bool {
        &&& self.directory.wf()
        &&& self.attachments@.len() <= i32::MAX
        &&& self.opened ==> open_spec(self.stream@) == Ok::<ContainerIndex, LibCZIApiError>(
            self.index_spec(),
        )
    }

    /// What a well-formed reader keeps.
    pub proof fn lemma_wf(&self)
        requires
            self.wf(),
        ensures
            self.is_open_spec() ==> open_spec(self.stream_spec()) == Ok::<
                ContainerIndex,
                LibCZIApiError,
            >(self.index_spec()),
            self.index_spec().entries.len() <= self.index_spec().declared <= i32::MAX,
            self.index_spec().attachments.len() <= i32::MAX,
    {
        self.directory.lemma_wf();
    }

    /// A reader that has opened nothing yet. The call always succeeds.
    pub fn create() -> (reader: Result<Self, LibCZIApiError>)
        ensures
            reader matches Ok(made) && made.wf() && !made.is_open_spec(),
    {
        Ok(
            CziReader {
                opened: false,
                stream: InputStream::from_bytes(Vec::new()),
                header: FileHeader {
                    info: FileHeaderInfo {
                        guid: [0u8;16],
                        major_version: 0,
                        minor_version: 0,
                    },
                    directory_position: 0,
                    metadata_position: 0,
                    attachment_directory_position: 0,
                },
                directory: SubBlockDirectory::new(),
                attachments: Vec::new(),
            },
        )
    }

    /// Opens the container in the stream: reads the file header, the
    /// sub-block directory and the attachment directory.
    ///
    /// Fails with `InvalidArgument` where the reader has opened a container
    /// before, and else with the error that opening the stream gives.
    /// Nothing changes where the call fails.
    pub fn open(&mut self, open_info: ReaderOpenInfo) -> (done: Result<(), LibCZIApiError>)
        requires
            old(self).wf(),
        ensures
            final(self).wf(),
            match done {
                Ok(_) => {
                    &&& !old(self).is_open_spec()
                    &&& final(self).is_open_spec()
                    &&& final(self).stream_spec() == open_info.stream@
                    &&& open_spec(open_info.stream@) == Ok::<ContainerIndex, LibCZIApiError>(
                        final(self).index_spec(),
                    )
                },
                Err(e) => {
                    &&& final(self).is_open_spec() == old(self).is_open_spec()
                    &&& final(self).stream_spec() == old(self).stream_spec()
                    &&& final(self).index_spec() == old(self).index_spec()
                    &&& if old(self).is_open_spec() {
                        e == LibCZIApiError::InvalidArgument
                    } else {
                        open_spec(open_info.stream@) == Err::<ContainerIndex, LibCZIApiError>(e)
                    }
                },
            },
    {
        if self.opened {
            return Err(LibCZIApiError::InvalidArgument);
        }
        let stream = open_info.stream;
        let bytes = stream.bytes();
        let header = match read_payload(bytes, 0, SegmentKind::FileHeader) {
            Err(e) => {
                return Err(e);
            },
            Ok(payload) => match read_file_header(payload) {
                Err(e) => {
                    return Err(e);
                },
                Ok(found) => found,
            },
        };
        if header.info.major_version != crate::container::FORMAT_MAJOR_VERSION {
            return Err(LibCZIApiError::CorruptData);
        }
        let directory = match read_payload(
            bytes,
            header.directory_position,
            SegmentKind::SubBlockDirectory,
        ) {
            Err(e) => {
                return Err(e);
            },
            Ok(payload) => {
                proof {
                    lemma_parse_directory_error(payload@);
                }
                match SubBlockDirectory::from_payload(payload) {
                    Err(e) => {
                        return Err(e);
                    },
                    Ok(found) => found,
                }
            },
        };
        let attachments: Vec<AttachmentEntry> = if header.attachment_directory_position == 0 {
            Vec::new()
        } else {
            match read_payload(
                bytes,
                header.attachment_directory_position,
                SegmentKind::AttachmentDirectory,
            ) {
                Err(e) => {
                    return Err(e);
                },
                Ok(payload) => match read_attachment_directory(payload) {
                    Err(e) => {
                        return Err(e);
                    },
                    Ok(found) => {
                        proof {
                            crate::attachment::lemma_attachment_directory_size(payload@);
                        }
                        found
                    },
                },
            }
        };
        proof {
            assert(attachments_of(stream@, header) == Ok::<Seq<AttachmentEntry>, LibCZIApiError>(
                attachments@,
            ));
        }
        self.opened = true;
        self.stream = stream;
        self.header = header;
        self.directory = directory;
        self.attachments = attachments;
        Ok(())
    }

    /// What the file header says of the document. Fails with
    /// `InvalidArgument` if and only if no container was opened.
    pub fn get_file_header_info(&self) -> (info: Result<FileHeaderInfo, LibCZIApiError>)
        ensures
            match info {
                Ok(found) => self.is_open_spec() && found == self.index_spec().header.info,
                Err(e) => e == LibCZIApiError::InvalidArgument && !self.is_open_spec(),
            },
    {
        if !self.opened {
            return Err(LibCZIApiError::InvalidArgument);
        }
        Ok(self.header.info)
    }

    /// Reads the sub-block at a place of the sub-block directory.
    ///
    /// Fails with `InvalidArgument` where no container was opened; see
    /// `read_sub_block_spec` for what it gives else.
    pub fn read_sub_block(&self, index: i32) -> (sub_block: Result<Option<SubBlock>, LibCZIApiError>)
        requires
            self.wf(),
        ensures
            match sub_block {
                Err(e) => if self.is_open_spec() {
                    read_sub_block_spec(self.stream_spec(), self.index_spec(), index) == Err::<
                        Option<SubBlockContent>,
                        LibCZIApiError,
                    >(e)
                } else {
                    e == LibCZIApiError::InvalidArgument
                },
                Ok(None) => self.is_open_spec() && read_sub_block_spec(
                    self.stream_spec(),
                    self.index_spec(),
                    index,
                ) == Ok::<Option<SubBlockContent>, LibCZIApiError>(None),
                Ok(Some(found)) => self.is_open_spec() && read_sub_block_spec(
                    self.stream_spec(),
                    self.index_spec(),
                    index,
                ) == Ok::<Option<SubBlockContent>, LibCZIApiError>(Some(found@)),
            },
    {
        if !self.opened {
            return Err(LibCZIApiError::InvalidArgument);
        }
        proof {
            self.directory.lemma_wf();
        }
        if index < 0 || index >= self.directory.declared_count() {
            return Err(LibCZIApiError::IndexOutOfRange);
        }
        match self.directory.entry(index) {
            Err(_) => Ok(None),
            Ok(entry) => {
                match read_payload(self.stream.bytes(), entry.file_position, SegmentKind::SubBlock) {
                    Err(e) => Err(e),
                    Ok(payload) => match read_sub_block_payload(payload) {
                        Err(e) => Err(e),
                        Ok(found) => Ok(Some(found)),
                    },
                }
            },
        }
    }

    /// What the directory says of the sub-block at a place.
    ///
    /// A place outside the declared places fails with `IndexOutOfRange`. A
    /// declared place past the last entry is no error: it gives `None`.
    /// Fails with `InvalidArgument` where no container was opened.
    pub fn try_get_sub_block_info_for_index(&self, index: i32) -> (info: Result<
        Option<SubBlockInfo>,
        LibCZIApiError,
    >)
        requires
            self.wf(),
        ensures
            info == if self.is_open_spec() {
                lookup_spec(self.index_spec().entries, self.index_spec().declared, index)
            } else {
                Err(LibCZIApiError::InvalidArgument)
            },
    {
        if !self.opened {
            return Err(LibCZIApiError::InvalidArgument);
        }
        self.directory.try_find_for_index(index)
    }

    /// The figures of the document, without the break-down by scene. Fails
    /// with `InvalidArgument` if and only if no container was opened.
    pub fn get_statistics_simple(&self) -> (statistics: Result<SubBlockStatistics, LibCZIApiError>)
        requires
            self.wf(),
        ensures
            match statistics {
                Ok(found) => self.is_open_spec() && is_statistics_of(found, self.index_spec().entries),
                Err(e) => e == LibCZIApiError::InvalidArgument && !self.is_open_spec(),
            },
    {
        if !self.opened {
            return Err(LibCZIApiError::InvalidArgument);
        }
        Ok(self.directory.get_statistics_simple())
    }

    /// The figures of the document with the break-down by scene, and beside
    /// them the number of scenes that there are.
    ///
    /// The list of scenes holds the first `number_of_per_channel_bounding_boxes`
    /// scenes by rising scene index, or all of them where there are fewer.
    /// The number handed back beside the figures is the number of all
    /// scenes: a caller that finds it above the room it offered asks again
    /// with more room. Fails with `InvalidArgument` where no container was
    /// opened or the room offered is negative.
    pub fn get_statistics_ex(&self, number_of_per_channel_bounding_boxes: i32) -> (statistics:
        Result<(SubBlockStatisticsEx, i32), LibCZIApiError>)
        requires
            self.wf(),
        ensures
            if self.is_open_spec() {
                statistics_ex_holds(
                    statistics,
                    self.index_spec().entries,
                    number_of_per_channel_bounding_boxes,
                )
            } else {
                statistics matches Err(e) && e == LibCZIApiError::InvalidArgument
            },
    {
        if !self.opened {
            return Err(LibCZIApiError::InvalidArgument);
        }
        self.directory.get_statistics_ex(number_of_per_channel_bounding_boxes)
    }

    /// The figures of the layers of the pyramid: for each scene and each
    /// factor of minification, in the order in which the directory first
    /// has a sub-block of them, the number of sub-blocks. Fails with
    /// `InvalidArgument` if and only if no container was opened.
    pub fn get_pyramid_layers(&self) -> (layers: Result<Vec<PyramidLayerStatistics>, LibCZIApiError>)
        requires
            self.wf(),
        ensures
            match layers {
                Ok(found) => self.is_open_spec() && found@ == pyramid_layers(
                    self.index_spec().entries,
                    self.index_spec().entries.len(),
                ),
                Err(e) => e == LibCZIApiError::InvalidArgument && !self.is_open_spec(),
            },
    {
        if !self.opened {
            return Err(LibCZIApiError::InvalidArgument);
        }
        proof {
            self.directory.lemma_wf();
        }
        Ok(pyramid_statistics(self.directory.entries()))
    }

    /// The figures of the layers of the pyramid as a JSON text: an object
    /// with the member `scenePyramidStatistics`, which holds for each
    /// scene the list of its layers; see `pyramid_json`. Fails with
    /// `InvalidArgument` if and only if no container was opened.
    pub fn get_pyramid_statistics(&self) -> (json: Result<String, LibCZIApiError>)
        requires
            self.wf(),
        ensures
            match json {
                Ok(text) => self.is_open_spec() && text@ == pyramid_json(
                    pyramid_layers(self.index_spec().entries, self.index_spec().entries.len()),
                ),
                Err(e) => e == LibCZIApiError::InvalidArgument && !self.is_open_spec(),
            },
    {
        match self.get_pyramid_layers() {
            Ok(layers) => Ok(pyramid_statistics_json(layers.as_slice())),
            Err(e) => Err(e),
        }
    }

    /// The metadata segment of the document.
    ///
    /// Fails with `InvalidArgument` where no container was opened; see
    /// `read_metadata_spec` for what it gives else.
    pub fn get_metadata_segment(&self) -> (segment: Result<MetadataSegment, LibCZIApiError>)
        ensures
            match segment {
                Ok(found) => self.is_open_spec() && read_metadata_spec(
                    self.stream_spec(),
                    self.index_spec(),
                ) == Ok::<Seq<u8>, LibCZIApiError>(found@),
                Err(e) => if self.is_open_spec() {
                    read_metadata_spec(self.stream_spec(), self.index_spec()) == Err::<
                        Seq<u8>,
                        LibCZIApiError,
                    >(e)
                } else {
                    e == LibCZIApiError::InvalidArgument
                },
            },
    {
        if !self.opened || self.header.metadata_position == 0 {
            return Err(LibCZIApiError::InvalidArgument);
        }
        match read_payload(self.stream.bytes(), self.header.metadata_position, SegmentKind::Metadata) {
            Err(e) => Err(e),
            Ok(payload) => read_metadata_payload(payload),
        }
    }

    /// How many attachments the document has. Fails with `InvalidArgument`
    /// if and only if no container was opened.
    pub fn get_attachment_count(&self) -> (count: Result<i32, LibCZIApiError>)
        requires
            self.wf(),
        ensures
            match count {
                Ok(found) => self.is_open_spec() && found == self.index_spec().attachments.len(),
                Err(e) => e == LibCZIApiError::InvalidArgument && !self.is_open_spec(),
            },
    {
        if !self.opened {
            return Err(LibCZIApiError::InvalidArgument);
        }
        Ok(self.attachments.len() as i32)
    }

    /// What the attachment directory says of the attachment at a place.
    ///
    /// Fails with `IndexOutOfRange` where the directory has no such place,
    /// and with `InvalidArgument` where no container was opened.
    pub fn get_attachment_info_from_directory(&self, index: i32) -> (info: Result<
        AttachmentInfo,
        LibCZIApiError,
    >)
        ensures
            match info {
                Ok(found) => {
                    &&& self.is_open_spec()
                    &&& 0 <= index < self.index_spec().attachments.len()
                    &&& found.guid == self.index_spec().attachments[index as int].guid
                    &&& found.content_file_type@ == info_content_file_type(
                        self.index_spec().attachments[index as int],
                    )
                    &&& found.name@ == info_name(self.index_spec().attachments[index as int])
                    &&& !found.name_overflow
                    &&& found.name_in_case_of_overflow@ == Seq::<u8>::empty()
                },
                Err(e) => if self.is_open_spec() {
                    e == LibCZIApiError::IndexOutOfRange && !(0 <= index
                        < self.index_spec().attachments.len())
                } else {
                    e == LibCZIApiError::InvalidArgument
                },
            },
    {
        if !self.opened {
            return Err(LibCZIApiError::InvalidArgument);
        }
        if index < 0 || index as usize >= self.attachments.len() {
            return Err(LibCZIApiError::IndexOutOfRange);
        }
        Ok(self.attachments[index as usize].info())
    }

    /// Reads the attachment at a place of the attachment directory.
    ///
    /// Fails with `InvalidArgument` where no container was opened; see
    /// `read_attachment_spec` for what it gives else.
    pub fn read_attachment(&self, index: i32) -> (attachment: Result<
        Option<Attachment>,
        LibCZIApiError,
    >)
        ensures
            match attachment {
                Err(e) => if self.is_open_spec() {
                    read_attachment_spec(self.stream_spec(), self.index_spec(), index) == Err::<
                        Option<AttachmentContent>,
                        LibCZIApiError,
                    >(e)
                } else {
                    e == LibCZIApiError::InvalidArgument
                },
                Ok(None) => self.is_open_spec() && read_attachment_spec(
                    self.stream_spec(),
                    self.index_spec(),
                    index,
                ) == Ok::<Option<AttachmentContent>, LibCZIApiError>(None),
                Ok(Some(found)) => self.is_open_spec() && read_attachment_spec(
                    self.stream_spec(),
                    self.index_spec(),
                    index,
                ) == Ok::<Option<AttachmentContent>, LibCZIApiError>(Some(found@)),
            },
    {
        if !self.opened {
            return Err(LibCZIApiError::InvalidArgument);
        }
        if index < 0 || index as usize >= self.attachments.len() {
            return Ok(None);
        }
        let entry = self.attachments[index as usize];
        match read_payload(self.stream.bytes(), entry.file_position, SegmentKind::Attachment) {
            Err(e) => Err(e),
            Ok(payload) => match read_attachment_payload(payload) {
                Err(e) => Err(e),
                Ok(found) => Ok(Some(found)),
            },
        }
    }

    /// A tile accessor over the document, with a copy of its bytes and of
    /// its sub-block directory. Fails with `InvalidArgument` if and only if
    /// no container was opened.
    pub fn create_single_channel_tile_accessor(&self) -> (accessor: Result<
        SingleChannelScalingTileAccessor,
        LibCZIApiError,
    >)
        ensures
            match accessor {
                Ok(made) => {
                    &&& self.is_open_spec()
                    &&& made.stream_spec() == self.stream_spec()
                    &&& made.entries_spec() == self.index_spec().entries
                },
                Err(e) => e == LibCZIApiError::InvalidArgument && !self.is_open_spec(),
            },
    {
        if !self.opened {
            return Err(LibCZIApiError::InvalidArgument);
        }
        let entries = vstd::slice::slice_to_vec(self.directory.entries());
        Ok(SingleChannelScalingTileAccessor::new(self.stream.clone(), entries))
    }

    /// Gives the reader up. The call always succeeds.
    pub fn release(self) -> (done: Result<(), LibCZIApiError>)
        ensures
            done is Ok,
    {
        Ok(())
    }
}

} // verus!
