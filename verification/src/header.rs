//! What the file header of a container says.

use crate::error::LibCZIApiError;
use crate::wire::{
    array_of, get_array, get_i32, get_u64, i32_at, i32_bytes, lemma_array_of, lemma_i32_field,
    lemma_u64_field, put_i32, put_slice, put_u64, put_zeros, u64_at, u64_bytes, zeros,
};
use vstd::bytes::{lemma_auto_spec_u32_to_from_le_bytes, lemma_auto_spec_u64_to_from_le_bytes};
use vstd::prelude::*;

verus! {

/// How many bytes the payload of the file header segment takes.
pub const FILE_HEADER_SIZE: usize = 512;

/// What the file header segment holds: the identity and version of the
/// document, and where its directories and its metadata start. A place of 0
/// says that there is no such segment.
#[derive(Clone, Copy, Debug)]
pub struct FileHeader {
    pub info: FileHeaderInfo,
    /// Where the segment of the sub-block directory starts.
    pub directory_position: u64,
    /// Where the metadata segment starts.
    pub metadata_position: u64,
    /// Where the segment of the attachment directory starts.
    pub attachment_directory_position: u64,
}

/// The first part of the payload of a file header: the version, eight
/// bytes that are kept free, the identifier twice, and the number of the
/// file part, which is always 0.
pub open spec fn file_header_identity_bytes(info: FileHeaderInfo) -> Seq<u8> {
    i32_bytes(info.major_version) + i32_bytes(info.minor_version) + zeros(8) + info.guid@
        + info.guid@ + i32_bytes(0)
}

/// The second part of the payload of a file header: the three places, with
/// a mark between them that is always 0.
pub open spec fn file_header_places_bytes(header: FileHeader) -> Seq<u8> {
    u64_bytes(header.directory_position) + u64_bytes(header.metadata_position) + i32_bytes(0)
        + u64_bytes(header.attachment_directory_position)
}

/// The 512 bytes of the payload of a file header.
pub open spec fn file_header_bytes(header: FileHeader) -> Seq<u8> {
    file_header_identity_bytes(header.info) + file_header_places_bytes(header) + zeros(432)
}

/// What a payload says as a file header: `CorruptData` where it has fewer
/// than 512 bytes.
pub open spec fn parse_file_header(payload: Seq<u8>) -> Result<FileHeader, LibCZIApiError> {
    if payload.len() < 512 {
        Err(LibCZIApiError::CorruptData)
    } else {
        Ok(
            FileHeader {
                info: FileHeaderInfo {
                    guid: array_of::<16>(payload.subrange(32, 48)),
                    major_version: i32_at(payload, 0),
                    minor_version: i32_at(payload, 4),
                },
                directory_position: u64_at(payload, 52),
                metadata_position: u64_at(payload, 60),
                attachment_directory_position: u64_at(payload, 72),
            },
        )
    }
}

/// A file header takes 512 bytes, and is read back from them.
pub proof fn lemma_file_header_round_trip(header: FileHeader)
    ensures
        file_header_bytes(header).len() == 512,
        parse_file_header(file_header_bytes(header)) == Ok::<FileHeader, LibCZIApiError>(header),
{
    lemma_auto_spec_u32_to_from_le_bytes();
    lemma_auto_spec_u64_to_from_le_bytes();
    let bytes = file_header_bytes(header);
    let identity = file_header_identity_bytes(header.info);
    let places = file_header_places_bytes(header);
    assert(identity.len() == 52);
    assert(places.len() == 28);
    assert(bytes.subrange(0, 52) == identity);
    assert(bytes.subrange(52, 80) == places);
    assert(bytes.subrange(0, 4) == identity.subrange(0, 4));
    assert(identity.subrange(0, 4) == i32_bytes(header.info.major_version));
    lemma_i32_field(bytes, 0, header.info.major_version);
    assert(bytes.subrange(4, 8) == identity.subrange(4, 8));
    assert(identity.subrange(4, 8) == i32_bytes(header.info.minor_version));
    lemma_i32_field(bytes, 4, header.info.minor_version);
    assert(bytes.subrange(32, 48) == identity.subrange(32, 48));
    assert(identity.subrange(32, 48) == header.info.guid@);
    lemma_array_of::<16>(header.info.guid);
    assert(bytes.subrange(52, 60) == places.subrange(0, 8));
    assert(places.subrange(0, 8) == u64_bytes(header.directory_position));
    lemma_u64_field(bytes, 52, header.directory_position);
    assert(bytes.subrange(60, 68) == places.subrange(8, 16));
    assert(places.subrange(8, 16) == u64_bytes(header.metadata_position));
    lemma_u64_field(bytes, 60, header.metadata_position);
    assert(bytes.subrange(72, 80) == places.subrange(20, 28));
    assert(places.subrange(20, 28) == u64_bytes(header.attachment_directory_position));
    lemma_u64_field(bytes, 72, header.attachment_directory_position);
}

/// The 512 bytes of the payload of a file header.
pub fn write_file_header(header: &FileHeader) -> (bytes: Vec<u8>)
    ensures
        bytes@ == file_header_bytes(*header),
        bytes@.len() == 512,
{
    let mut identity: Vec<u8> = Vec::new();
    put_i32(&mut identity, header.info.major_version);
    put_i32(&mut identity, header.info.minor_version);
    put_zeros(&mut identity, 8);
    put_slice(&mut identity, header.info.guid.as_slice());
    put_slice(&mut identity, header.info.guid.as_slice());
    put_i32(&mut identity, 0);
    assert(identity@ =~= file_header_identity_bytes(header.info));
    let mut places: Vec<u8> = Vec::new();
    put_u64(&mut places, header.directory_position);
    put_u64(&mut places, header.metadata_position);
    put_i32(&mut places, 0);
    put_u64(&mut places, header.attachment_directory_position);
    assert(places@ =~= file_header_places_bytes(*header));
    identity.append(&mut places);
    put_zeros(&mut identity, 432);
    assert(identity@ =~= file_header_bytes(*header));
    proof {
        lemma_file_header_round_trip(*header);
    }
    identity
}

/// The file header that a payload holds.
pub fn read_file_header(payload: &[u8]) -> (header: Result<FileHeader, LibCZIApiError>)
    ensures
        header == parse_file_header(payload@),
{
    if payload.len() < 512 {
        return Err(LibCZIApiError::CorruptData);
    }
    Ok(
        FileHeader {
            info: FileHeaderInfo {
                guid: get_array::<16>(payload, 32),
                major_version: get_i32(payload, 0),
                minor_version: get_i32(payload, 4),
            },
            directory_position: get_u64(payload, 52),
            metadata_position: get_u64(payload, 60),
            attachment_directory_position: get_u64(payload, 72),
        },
    )
}

/// The identity and the format version of a document, as its file header
/// states them.
#[derive(Clone, Copy, Debug)]
pub struct FileHeaderInfo {
    /// The 128-bit identifier of the document.
    pub guid: [u8; 16],
    pub major_version: i32,
    pub minor_version: i32,
}

impl FileHeaderInfo {
    pub fn new(guid: [u8; 16], major_version: i32, minor_version: i32) -> (info: Self)
        ensures
            info == (FileHeaderInfo { guid, major_version, minor_version }),
    {
        FileHeaderInfo { guid, major_version, minor_version }
    }

    pub fn get_guid(&self) -> (guid: [u8; 16])
        ensures
            guid == self.guid,
    {
        self.guid
    }

    pub fn get_major_version(&self) -> (major_version: i32)
        ensures
            major_version == self.major_version,
    {
        self.major_version
    }

    pub fn get_minor_version(&self) -> (minor_version: i32)
        ensures
            minor_version == self.minor_version,
    {
        self.minor_version
    }

    pub fn set_guid(&mut self, guid: [u8; 16])
        ensures
            *final(self) == (FileHeaderInfo { guid, ..*old(self) }),
    {
        self.guid = guid;
    }

    pub fn set_major_version(&mut self, major_version: i32)
        ensures
            *final(self) == (FileHeaderInfo { major_version, ..*old(self) }),
    {
        self.major_version = major_version;
    }

    pub fn set_minor_version(&mut self, minor_version: i32)
        ensures
            *final(self) == (FileHeaderInfo { minor_version, ..*old(self) }),
    {
        self.minor_version = minor_version;
    }
}

} // verus!
