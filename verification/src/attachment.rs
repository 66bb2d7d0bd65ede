//! Attachments: named payloads that a document carries beside its image
//! data.

use crate::error::{CziError, LibCZIApiError};
use crate::subblock::{raw_data, raw_data_spec};
use crate::text::{terminated_text, text_from_utf8, text_until_zero, utf8_text};
use crate::wire::{
    array_of, get_array, get_u32, get_u64, has_bytes_at, lemma_array_of, lemma_u32_field,
    lemma_u64_field, put_slice, put_u32, put_u64, put_zeros, u32_at, u32_bytes, u64_at, u64_bytes,
    zeros,
};
use vstd::bytes::{lemma_auto_spec_u32_to_from_le_bytes, lemma_auto_spec_u64_to_from_le_bytes};
use vstd::prelude::*;
use vstd::slice::{slice_subrange, slice_to_vec};
use vstd::utf8::encode_utf8;

verus! {

/// What is known of an attachment without its payload.
///
/// The name stands in a field of fixed size, closed by a zero byte. A name
/// that is too long for the field is cut there; `name_overflow` then holds,
/// and `name_in_case_of_overflow` has the whole name.
#[derive(Debug)]
pub struct AttachmentInfo {
    /// The 128-bit identifier of the attachment.
    pub guid: [u8; 16],
    /// The kind of content, a short text closed by a zero byte.
    pub content_file_type: [u8; 9],
    /// The name, closed by a zero byte.
    pub name: [u8; 255],
    /// Whether the name was cut to fit.
    pub name_overflow: bool,
    /// The whole name where it was cut, as UTF-8 with no zero byte at its end.
    pub name_in_case_of_overflow: Vec<u8>,
}

/// An attachment that is to be added to a document.
#[derive(Debug)]
pub struct AddAttachmentInfo {
    pub guid: [u8; 16],
    pub content_file_type: [u8; 8],
    pub name: [u8; 80],
    /// How many bytes of `attachment_data` belong to the attachment.
    pub size_attachment_data: u32,
    pub attachment_data: Vec<u8>,
}

impl Clone for AttachmentInfo {
    fn clone(&self) -> (copy: Self)
        ensures
            copy.name_in_case_of_overflow@ == self.name_in_case_of_overflow@,
            copy == (AttachmentInfo {
                name_in_case_of_overflow: copy.name_in_case_of_overflow,
                ..*self
            }),
    {
        AttachmentInfo {
            guid: self.guid,
            content_file_type: self.content_file_type,
            name: self.name,
            name_overflow: self.name_overflow,
            name_in_case_of_overflow: self.name_in_case_of_overflow.clone(),
        }
    }
}

impl AttachmentInfo {
    pub fn get_guid(&self) -> (guid: [u8; 16])
        ensures
            guid == self.guid,
    {
        self.guid
    }

    pub fn get_content_file_type(&self) -> (content_file_type: [u8; 9])
        ensures
            content_file_type == self.content_file_type,
    {
        self.content_file_type
    }

    /// The name as it stands in the fixed field: the text before the first
    /// zero byte. `MissingTerminator` where the field has no zero byte,
    /// `InvalidUtf8` where the bytes before it are no text.
    pub fn get_name(&self) -> (name: Result<String, CziError>)
        ensures
            match name {
                Ok(text) => terminated_text(self.name@) == Ok::<Seq<u8>, CziError>(
                    encode_utf8(text@),
                ),
                Err(e) => terminated_text(self.name@) == Err::<Seq<u8>, CziError>(e),
            },
    {
        match text_until_zero(self.name.as_slice()) {
            Ok(text) => Ok(text.to_owned()),
            Err(e) => Err(e),
        }
    }

    pub fn get_name_overflow(&self) -> (name_overflow: bool)
        ensures
            name_overflow == self.name_overflow,
    {
        self.name_overflow
    }

    /// The whole name of an attachment whose name was cut, or `InvalidUtf8`
    /// where its bytes are no text.
    pub fn get_name_in_case_of_overflow(&self) -> (name: Result<String, CziError>)
        ensures
            match name {
                Ok(text) => utf8_text(self.name_in_case_of_overflow@) == Ok::<Seq<u8>, CziError>(
                    encode_utf8(text@),
                ),
                Err(e) => utf8_text(self.name_in_case_of_overflow@) == Err::<Seq<u8>, CziError>(e),
            },
    {
        match text_from_utf8(self.name_in_case_of_overflow.as_slice()) {
            Ok(text) => Ok(text.to_owned()),
            Err(e) => Err(e),
        }
    }
}

impl Clone for AddAttachmentInfo {
    fn clone(&self) -> (copy: Self)
        ensures
            copy.attachment_data@ == self.attachment_data@,
            copy == (AddAttachmentInfo { attachment_data: copy.attachment_data, ..*self }),
    {
        AddAttachmentInfo {
            guid: self.guid,
            content_file_type: self.content_file_type,
            name: self.name,
            size_attachment_data: self.size_attachment_data,
            attachment_data: self.attachment_data.clone(),
        }
    }
}

impl AddAttachmentInfo {
    /// Gathers what describes an attachment. The payload is copied; its size
    /// is taken as given.
    pub fn new(
        guid: [u8; 16],
        content_file_type: [u8; 8],
        name: [u8; 80],
        size_attachment_data: u32,
        attachment_data: &[u8],
    ) -> (info: Self)
        ensures
            info.attachment_data@ == attachment_data@,
            info == (AddAttachmentInfo {
                guid,
                content_file_type,
                name,
                size_attachment_data,
                attachment_data: info.attachment_data,
            }),
    {
        AddAttachmentInfo {
            guid,
            content_file_type,
            name,
            size_attachment_data,
            attachment_data: slice_to_vec(attachment_data),
        }
    }

    pub fn get_guid(&self) -> (guid: [u8; 16])
        ensures
            guid == self.guid,
    {
        self.guid
    }

    pub fn get_content_file_type(&self) -> (content_file_type: [u8; 8])
        ensures
            content_file_type == self.content_file_type,
    {
        self.content_file_type
    }

    pub fn get_name(&self) -> (name: [u8; 80])
        ensures
            name == self.name,
    {
        self.name
    }

    pub fn get_size_attachment_data(&self) -> (size_attachment_data: u32)
        ensures
            size_attachment_data == self.size_attachment_data,
    {
        self.size_attachment_data
    }

    pub fn get_attachment_data(&self) -> (attachment_data: Vec<u8>)
        ensures
            attachment_data@ == self.attachment_data@,
    {
        self.attachment_data.clone()
    }

    pub fn set_guid(&mut self, guid: [u8; 16])
        ensures
            *final(self) == (AddAttachmentInfo { guid, ..*old(self) }),
    {
        self.guid = guid;
    }

    pub fn set_content_file_type(&mut self, content_file_type: [u8; 8])
        ensures
            *final(self) == (AddAttachmentInfo { content_file_type, ..*old(self) }),
    {
        self.content_file_type = content_file_type;
    }

    pub fn set_name(&mut self, name: [u8; 80])
        ensures
            *final(self) == (AddAttachmentInfo { name, ..*old(self) }),
    {
        self.name = name;
    }

    pub fn set_size_attachment_data(&mut self, size_attachment_data: u32)
        ensures
            *final(self) == (AddAttachmentInfo { size_attachment_data, ..*old(self) }),
    {
        self.size_attachment_data = size_attachment_data;
    }

    /// Takes a copy of the bytes and sets `size_attachment_data` to their number.
    pub fn set_attachment_data(&mut self, attachment_data: &[u8])
        requires
            attachment_data@.len() <= u32::MAX,
        ensures
            final(self).attachment_data@ == attachment_data@,
            final(self).size_attachment_data == attachment_data@.len(),
            *final(self) == (AddAttachmentInfo {
                attachment_data: final(self).attachment_data,
                size_attachment_data: final(self).size_attachment_data,
                ..*old(self)
            }),
    {
        self.size_attachment_data = attachment_data.len() as u32;
        self.attachment_data = slice_to_vec(attachment_data);
    }
}

/// How many bytes an entry of the attachment directory takes.
pub const ATTACHMENT_ENTRY_SIZE: usize = 128;

/// How many bytes stand before the payload proper in an attachment segment,
/// and before the entries in the segment of the attachment directory.
pub const ATTACHMENT_HEAD_SIZE: usize = 256;

/// One line of the attachment directory: what is known of an attachment,
/// and where in the container its segment starts.
#[derive(Clone, Copy, Debug)]
pub struct AttachmentEntry {
    /// The 128-bit identifier of the attachment.
    pub guid: [u8; 16],
    /// The kind of content, a short text filled up with zero bytes.
    pub content_file_type: [u8; 8],
    /// The name, filled up with zero bytes.
    pub name: [u8; 80],
    /// The offset of the attachment's segment in the container.
    pub file_position: u64,
}

/// What an attachment segment holds: the directory entry of the attachment
/// and its payload.
pub struct AttachmentContent {
    pub entry: AttachmentEntry,
    pub data: Seq<u8>,
}

/// An attachment, as it was read from a container.
#[derive(Debug)]
pub struct Attachment {
    entry: AttachmentEntry,
    data: Vec<u8>,
}

/// The four bytes that every attachment entry starts with: the letters
/// `A1` and two zero bytes.
pub open spec fn attachment_schema() -> Seq<u8> {
    seq![65u8, 49u8, 0u8, 0u8]
}

/// The 128 bytes of an attachment entry.
pub open spec fn attachment_entry_bytes(entry: AttachmentEntry) -> Seq<u8> {
    attachment_schema() + zeros(4) + u64_bytes(entry.file_position) + entry.guid@
        + entry.content_file_type@ + entry.name@ + zeros(8)
}

/// What 128 bytes say as an attachment entry: `CorruptData` where they do
/// not start with the schema.
pub open spec fn parse_attachment_entry(bytes: Seq<u8>) -> Result<AttachmentEntry, LibCZIApiError> {
    if bytes.subrange(0, 4) != attachment_schema() {
        Err(LibCZIApiError::CorruptData)
    } else {
        Ok(
            AttachmentEntry {
                guid: array_of::<16>(bytes.subrange(16, 32)),
                content_file_type: array_of::<8>(bytes.subrange(32, 40)),
                name: array_of::<80>(bytes.subrange(40, 120)),
                file_position: u64_at(bytes, 8),
            },
        )
    }
}

/// An attachment entry takes 128 bytes, and is read back from them.
pub proof fn lemma_attachment_entry_round_trip(entry: AttachmentEntry)
    ensures
        attachment_entry_bytes(entry).len() == 128,
        parse_attachment_entry(attachment_entry_bytes(entry)) == Ok::<
            AttachmentEntry,
            LibCZIApiError,
        >(entry),
{
    lemma_auto_spec_u64_to_from_le_bytes();
    let bytes = attachment_entry_bytes(entry);
    assert(bytes.subrange(0, 4) == attachment_schema());
    assert(bytes.subrange(8, 16) == u64_bytes(entry.file_position));
    lemma_u64_field(bytes, 8, entry.file_position);
    assert(bytes.subrange(16, 32) == entry.guid@);
    assert(bytes.subrange(32, 40) == entry.content_file_type@);
    assert(bytes.subrange(40, 120) == entry.name@);
    lemma_array_of::<16>(entry.guid);
    lemma_array_of::<8>(entry.content_file_type);
    lemma_array_of::<80>(entry.name);
}

/// Adds the 128 bytes of an attachment entry.
pub fn write_attachment_entry(out: &mut Vec<u8>, entry: &AttachmentEntry)
    ensures
        final(out)@ == old(out)@ + attachment_entry_bytes(*entry),
        final(out)@.len() == old(out)@.len() + 128,
{
    let schema: [u8; 4] = [65, 49, 0, 0];
    assert(schema@ =~= attachment_schema());
    let mut record: Vec<u8> = Vec::new();
    put_slice(&mut record, schema.as_slice());
    put_zeros(&mut record, 4);
    put_u64(&mut record, entry.file_position);
    put_slice(&mut record, entry.guid.as_slice());
    put_slice(&mut record, entry.content_file_type.as_slice());
    put_slice(&mut record, entry.name.as_slice());
    put_zeros(&mut record, 8);
    assert(record@ =~= attachment_entry_bytes(*entry));
    proof {
        lemma_attachment_entry_round_trip(*entry);
    }
    out.append(&mut record);
}

/// The attachment entry that stands in the 128 bytes from `pos` on.
pub fn read_attachment_entry(bytes: &[u8], pos: usize) -> (entry: Result<
    AttachmentEntry,
    LibCZIApiError,
>)
    requires
        pos + 128 <= bytes@.len(),
    ensures
        entry == parse_attachment_entry(bytes@.subrange(pos as int, pos + 128)),
{
    let size: usize = bytes.len();
    let record = slice_subrange(bytes, pos, pos + 128);
    let schema: [u8; 4] = [65, 49, 0, 0];
    assert(schema@ =~= attachment_schema());
    if !has_bytes_at(record, 0, schema.as_slice()) {
        return Err(LibCZIApiError::CorruptData);
    }
    Ok(
        AttachmentEntry {
            guid: get_array::<16>(record, 16),
            content_file_type: get_array::<8>(record, 32),
            name: get_array::<80>(record, 40),
            file_position: get_u64(record, 8),
        },
    )
}

/// The payload of an attachment segment: the size of the data, the
/// directory entry, zero bytes up to the size of the head, and the data.
pub open spec fn attachment_payload(content: AttachmentContent) -> Seq<u8> {
    u64_bytes(content.data.len() as u64) + zeros(8) + attachment_entry_bytes(content.entry)
        + zeros(112) + content.data
}

/// What a payload says as an attachment: `CorruptData` where it is shorter
/// than its head, where the size that the head states is not the size of
/// what follows it, or where the directory entry in the head is none.
pub open spec fn parse_attachment(payload: Seq<u8>) -> Result<AttachmentContent, LibCZIApiError> {
    if payload.len() < 256 || 256 + u64_at(payload, 0) != payload.len() {
        Err(LibCZIApiError::CorruptData)
    } else {
        match parse_attachment_entry(payload.subrange(16, 144)) {
            Err(e) => Err(e),
            Ok(entry) => Ok(
                AttachmentContent { entry, data: payload.subrange(256, payload.len() as int) },
            ),
        }
    }
}

/// An attachment is read back from its payload.
pub proof fn lemma_attachment_round_trip(content: AttachmentContent)
    requires
        content.data.len() <= u64::MAX,
    ensures
        attachment_payload(content).len() == 256 + content.data.len(),
        parse_attachment(attachment_payload(content)) == Ok::<AttachmentContent, LibCZIApiError>(
            content,
        ),
{
    lemma_auto_spec_u64_to_from_le_bytes();
    lemma_attachment_entry_round_trip(content.entry);
    let payload = attachment_payload(content);
    assert(payload.subrange(0, 8) == u64_bytes(content.data.len() as u64));
    lemma_u64_field(payload, 0, content.data.len() as u64);
    assert(payload.subrange(16, 144) == attachment_entry_bytes(content.entry));
    assert(payload.subrange(256, payload.len() as int) == content.data);
}

/// The payload of an attachment segment.
pub fn write_attachment_payload(entry: &AttachmentEntry, data: &[u8]) -> (payload: Vec<u8>)
    ensures
        payload@ == attachment_payload(AttachmentContent { entry: *entry, data: data@ }),
{
    let mut payload: Vec<u8> = Vec::new();
    put_u64(&mut payload, data.len() as u64);
    put_zeros(&mut payload, 8);
    write_attachment_entry(&mut payload, entry);
    put_zeros(&mut payload, 112);
    put_slice(&mut payload, data);
    payload
}

/// The attachment that a payload holds.
pub fn read_attachment_payload(payload: &[u8]) -> (attachment: Result<Attachment, LibCZIApiError>)
    ensures
        match attachment {
            Ok(found) => parse_attachment(payload@) == Ok::<AttachmentContent, LibCZIApiError>(
                found@,
            ),
            Err(e) => parse_attachment(payload@) == Err::<AttachmentContent, LibCZIApiError>(e),
        },
{
    let size: usize = payload.len();
    if size < 256 {
        return Err(LibCZIApiError::CorruptData);
    }
    let data_size: u64 = get_u64(payload, 0);
    if data_size != (size - 256) as u64 {
        return Err(LibCZIApiError::CorruptData);
    }
    match read_attachment_entry(payload, 16) {
        Err(e) => Err(e),
        Ok(entry) => {
            let data = slice_to_vec(slice_subrange(payload, 256, size));
            Ok(Attachment { entry, data })
        },
    }
}

/// The bytes of the attachment entries, one after the other.
pub open spec fn attachment_entries_bytes(entries: Seq<AttachmentEntry>) -> Seq<u8>
    decreases entries.len(),
{
    if entries.len() == 0 {
        Seq::empty()
    } else {
        attachment_entries_bytes(entries.drop_last()) + attachment_entry_bytes(entries.last())
    }
}

/// The payload of the segment of the attachment directory: the number of
/// entries, zero bytes up to the size of the head, and the entries.
pub open spec fn attachment_directory_payload(entries: Seq<AttachmentEntry>) -> Seq<u8> {
    u32_bytes(entries.len() as u32) + zeros(252) + attachment_entries_bytes(entries)
}

/// The first `count` attachment entries that stand in a payload, or the
/// error of the first that is none.
pub open spec fn parse_attachment_entries(payload: Seq<u8>, count: nat) -> Result<
    Seq<AttachmentEntry>,
    LibCZIApiError,
>
    decreases count,
{
    if count == 0 {
        Ok(Seq::empty())
    } else {
        match parse_attachment_entries(payload, (count - 1) as nat) {
            Err(e) => Err(e),
            Ok(front) => match parse_attachment_entry(
                payload.subrange(256 + 128 * (count - 1), 256 + 128 * (count as int)),
            ) {
                Err(e) => Err(e),
                Ok(entry) => Ok(front.push(entry)),
            },
        }
    }
}

/// What a payload says as an attachment directory: `CorruptData` where it
/// is shorter than its head, where it does not have the size that the
/// number of its entries asks for, or where an entry is none.
pub open spec fn parse_attachment_directory(payload: Seq<u8>) -> Result<
    Seq<AttachmentEntry>,
    LibCZIApiError,
> {
    if payload.len() < 256 || u32_at(payload, 0) > i32::MAX || payload.len() != 256 + 128 * u32_at(
        payload,
        0,
    ) {
        Err(LibCZIApiError::CorruptData)
    } else {
        parse_attachment_entries(payload, u32_at(payload, 0) as nat)
    }
}

/// The bytes of `n` attachment entries take `128 * n` bytes, and each entry
/// stands at its place among them.
pub proof fn lemma_attachment_entries_bytes(entries: Seq<AttachmentEntry>)
    ensures
        attachment_entries_bytes(entries).len() == 128 * entries.len(),
        forall|i: int|
            0 <= i < entries.len() ==> #[trigger] attachment_entries_bytes(entries).subrange(
                128 * i,
                128 * i + 128,
            ) == attachment_entry_bytes(entries[i]),
    decreases entries.len(),
{
    if entries.len() > 0 {
        let front = entries.drop_last();
        lemma_attachment_entries_bytes(front);
        lemma_attachment_entry_round_trip(entries.last());
        let all = attachment_entries_bytes(entries);
        assert forall|i: int| 0 <= i < entries.len() implies #[trigger] all.subrange(
            128 * i,
            128 * i + 128,
        ) == attachment_entry_bytes(entries[i]) by {
            if i < front.len() {
                assert(all.subrange(128 * i, 128 * i + 128) =~= attachment_entries_bytes(
                    front,
                ).subrange(128 * i, 128 * i + 128));
                assert(front[i] == entries[i]);
            } else {
                assert(all.subrange(128 * i, 128 * i + 128) =~= attachment_entry_bytes(
                    entries.last(),
                ));
            }
        }
    }
}

/// The attachment entries that were written are the entries that are read.
proof fn lemma_parse_attachment_entries(
    payload: Seq<u8>,
    entries: Seq<AttachmentEntry>,
    count: nat,
)
    requires
        count <= entries.len(),
        payload.len() == 256 + 128 * entries.len(),
        payload.subrange(256, payload.len() as int) == attachment_entries_bytes(entries),
    ensures
        parse_attachment_entries(payload, count) == Ok::<Seq<AttachmentEntry>, LibCZIApiError>(
            entries.take(count as int),
        ),
    decreases count,
{
    if count == 0 {
        assert(entries.take(0) =~= Seq::<AttachmentEntry>::empty());
    } else {
        lemma_parse_attachment_entries(payload, entries, (count - 1) as nat);
        lemma_attachment_entries_bytes(entries);
        let i = count - 1;
        assert(payload.subrange(256 + 128 * i, 256 + 128 * (count as int))
            =~= attachment_entries_bytes(entries).subrange(128 * i, 128 * i + 128));
        lemma_attachment_entry_round_trip(entries[i]);
        assert(entries.take(count as int) =~= entries.take(i).push(entries[i]));
    }
}

/// An attachment directory of no more entries than a 32-bit index can reach
/// is read back from its payload.
pub proof fn lemma_attachment_directory_round_trip(entries: Seq<AttachmentEntry>)
    requires
        entries.len() <= i32::MAX,
    ensures
        attachment_directory_payload(entries).len() == 256 + 128 * entries.len(),
        parse_attachment_directory(attachment_directory_payload(entries)) == Ok::<
            Seq<AttachmentEntry>,
            LibCZIApiError,
        >(entries),
{
    lemma_auto_spec_u32_to_from_le_bytes();
    lemma_attachment_entries_bytes(entries);
    let payload = attachment_directory_payload(entries);
    assert(payload.subrange(0, 4) == u32_bytes(entries.len() as u32));
    lemma_u32_field(payload, 0, entries.len() as u32);
    assert(payload.subrange(256, payload.len() as int) =~= attachment_entries_bytes(entries));
    lemma_parse_attachment_entries(payload, entries, entries.len());
    assert(entries.take(entries.len() as int) == entries);
}

/// The payload of the segment of the attachment directory.
pub fn write_attachment_directory(entries: &Vec<AttachmentEntry>) -> (payload: Vec<u8>)
    requires
        entries@.len() <= i32::MAX,
    ensures
        payload@ == attachment_directory_payload(entries@),
{
    let mut payload: Vec<u8> = Vec::new();
    put_u32(&mut payload, entries.len() as u32);
    put_zeros(&mut payload, 252);
    let ghost head = payload@;
    let mut i: usize = 0;
    while i < entries.len()
        invariant
            i <= entries@.len(),
            payload@ == head + attachment_entries_bytes(entries@.take(i as int)),
        decreases entries@.len() - i,
    {
        write_attachment_entry(&mut payload, &entries[i]);
        proof {
            let next = entries@.take(i + 1);
            assert(next.drop_last() == entries@.take(i as int));
            assert(next.last() == entries@[i as int]);
            assert(payload@ =~= head + attachment_entries_bytes(next));
        }
        i = i + 1;
    }
    assert(entries@.take(i as int) == entries@);
    payload
}

/// The attachment entries that a payload holds.
pub fn read_attachment_directory(payload: &[u8]) -> (entries: Result<
    Vec<AttachmentEntry>,
    LibCZIApiError,
>)
    ensures
        match entries {
            Ok(found) => parse_attachment_directory(payload@) == Ok::<
                Seq<AttachmentEntry>,
                LibCZIApiError,
            >(found@),
            Err(e) => parse_attachment_directory(payload@) == Err::<
                Seq<AttachmentEntry>,
                LibCZIApiError,
            >(e),
        },
{
    let size: usize = payload.len();
    if size < 256 {
        return Err(LibCZIApiError::CorruptData);
    }
    let count: u32 = get_u32(payload, 0);
    if count > i32::MAX as u32 || (size - 256) % 128 != 0 || (size - 256) / 128 != count as usize {
        return Err(LibCZIApiError::CorruptData);
    }
    let mut entries: Vec<AttachmentEntry> = Vec::new();
    let mut i: usize = 0;
    while i < count as usize
        invariant
            i <= count,
            size == payload@.len(),
            size == 256 + 128 * count,
            count == u32_at(payload@, 0),
            count <= i32::MAX,
            parse_attachment_entries(payload@, i as nat) == Ok::<
                Seq<AttachmentEntry>,
                LibCZIApiError,
            >(entries@),
        decreases count - i,
    {
        let ghost before = entries@;
        let ghost next_bytes = payload@.subrange(256 + 128 * i, 256 + 128 * (i + 1));
        match read_attachment_entry(payload, 256 + 128 * i) {
            Err(e) => {
                proof {
                    assert(parse_attachment_entry(next_bytes) is Err);
                    assert(parse_attachment_entries(payload@, (i + 1) as nat) is Err);
                    lemma_parse_attachment_entries_fails(payload@, (i + 1) as nat, count as nat);
                }
                return Err(e);
            },
            Ok(entry) => {
                entries.push(entry);
                proof {
                    assert(parse_attachment_entry(next_bytes) == Ok::<
                        AttachmentEntry,
                        LibCZIApiError,
                    >(entry));
                    assert(parse_attachment_entries(payload@, (i + 1) as nat) == Ok::<
                        Seq<AttachmentEntry>,
                        LibCZIApiError,
                    >(before.push(entry)));
                }
            },
        }
        i = i + 1;
    }
    Ok(entries)
}

/// Where the first attachment entries are none, so are more of them, and
/// with the same error.
proof fn lemma_parse_attachment_entries_fails(payload: Seq<u8>, count: nat, more: nat)
    requires
        count <= more,
        parse_attachment_entries(payload, count) is Err,
    ensures
        parse_attachment_entries(payload, more) == parse_attachment_entries(payload, count),
    decreases more - count,
{
    if count < more {
        lemma_parse_attachment_entries_fails(payload, count, (more - 1) as nat);
    }
}

/// The content type as it stands in what is known of an attachment: the
/// eight bytes of the directory, closed by a zero byte.
pub open spec fn info_content_file_type(entry: AttachmentEntry) -> Seq<u8> {
    entry.content_file_type@ + zeros(1)
}

/// The name as it stands in what is known of an attachment: the eighty
/// bytes of the directory, filled up with zero bytes.
pub open spec fn info_name(entry: AttachmentEntry) -> Seq<u8> {
    entry.name@ + zeros(175)
}

impl View for Attachment {
    type V = AttachmentContent;

    closed spec fn view(&self) -> AttachmentContent {
        AttachmentContent { entry: self.entry, data: self.data@ }
    }
}

impl Clone for Attachment {
    fn clone(&self) -> (copy: Self)
        ensures
            copy@ == self@,
    {
        Attachment { entry: self.entry, data: self.data.clone() }
    }
}

impl AttachmentEntry {
    /// What the entry says of the attachment. The name of an entry always
    /// fits, so it is never marked as cut.
    pub fn info(&self) -> (info: AttachmentInfo)
        ensures
            info.guid == self.guid,
            info.content_file_type@ == info_content_file_type(*self),
            info.name@ == info_name(*self),
            !info.name_overflow,
            info.name_in_case_of_overflow@ == Seq::<u8>::empty(),
    {
        let mut content_file_type: [u8; 9] = [0u8;9];
        let mut i: usize = 0;
        while i < 8
            invariant
                i <= 8,
                forall|j: int| 0 <= j < i ==> content_file_type@[j] == self.content_file_type@[j],
                forall|j: int| i <= j < 9 ==> content_file_type@[j] == 0,
            decreases 8 - i,
        {
            content_file_type[i] = self.content_file_type[i];
            i = i + 1;
        }
        let mut name: [u8; 255] = [0u8;255];
        let mut k: usize = 0;
        while k < 80
            invariant
                k <= 80,
                forall|j: int| 0 <= j < k ==> name@[j] == self.name@[j],
                forall|j: int| k <= j < 255 ==> name@[j] == 0,
            decreases 80 - k,
        {
            name[k] = self.name[k];
            k = k + 1;
        }
        assert(content_file_type@ =~= info_content_file_type(*self));
        assert(name@ =~= info_name(*self));
        AttachmentInfo {
            guid: self.guid,
            content_file_type,
            name,
            name_overflow: false,
            name_in_case_of_overflow: Vec::new(),
        }
    }
}

impl Attachment {
    /// An attachment of the given parts.
    pub fn from_parts(entry: AttachmentEntry, data: Vec<u8>) -> (attachment: Self)
        ensures
            attachment@ == (AttachmentContent { entry, data: data@ }),
    {
        Attachment { entry, data }
    }

    /// What is known of the attachment without its payload. The call always
    /// succeeds.
    pub fn get_info(&self) -> (info: Result<AttachmentInfo, LibCZIApiError>)
        ensures
            info matches Ok(found) && {
                &&& found.guid == self@.entry.guid
                &&& found.content_file_type@ == info_content_file_type(self@.entry)
                &&& found.name@ == info_name(self@.entry)
                &&& !found.name_overflow
                &&& found.name_in_case_of_overflow@ == Seq::<u8>::empty()
            },
    {
        Ok(self.entry.info())
    }

    /// The first `size` bytes of the payload, with the size of the whole.
    ///
    /// The first part of the result is the size of the whole payload, the
    /// second holds its first `size` bytes, or all of them where it has
    /// fewer. Fails with `InvalidArgument` for a negative `size`, and with
    /// `UnspecifiedError` where the size of the payload is no 32-bit number.
    pub fn get_raw_data(&self, size: i32) -> (part: Result<(i32, Vec<u8>), LibCZIApiError>)
        ensures
            match part {
                Ok((whole, bytes)) => raw_data_spec(self@.data, size) == Ok::<
                    (i32, Seq<u8>),
                    LibCZIApiError,
                >((whole, bytes@)),
                Err(e) => raw_data_spec(self@.data, size) == Err::<(i32, Seq<u8>), LibCZIApiError>(
                    e,
                ),
            },
    {
        raw_data(self.data.as_slice(), size)
    }

    /// Gives the attachment up. The call always succeeds.
    pub fn release(self) -> (done: Result<(), LibCZIApiError>)
        ensures
            done is Ok,
    {
        Ok(())
    }
}

/// An attachment directory that is read has no more entries than a 32-bit
/// index can reach.
pub proof fn lemma_attachment_directory_size(payload: Seq<u8>)
    ensures
        parse_attachment_directory(payload) matches Ok(entries) ==> entries.len() <= i32::MAX,
{
    if parse_attachment_directory(payload) is Ok {
        lemma_parse_attachment_entries_length(payload, u32_at(payload, 0) as nat);
    }
}

/// As many attachment entries are read as were asked for.
proof fn lemma_parse_attachment_entries_length(payload: Seq<u8>, count: nat)
    requires
        parse_attachment_entries(payload, count) is Ok,
    ensures
        parse_attachment_entries(payload, count)->Ok_0.len() == count,
    decreases count,
{
    if count > 0 {
        lemma_parse_attachment_entries_length(payload, (count - 1) as nat);
    }
}

} // verus!
