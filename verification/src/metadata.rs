//! The metadata of a document: its XML text, and what is drawn from it.

use crate::error::{CziError, LibCZIApiError};
use crate::text::{text_from_utf8, utf8_text};
use crate::wire::{get_u32, lemma_u32_field, put_slice, put_u32, put_zeros, u32_at, u32_bytes, zeros};
use vstd::bytes::lemma_auto_spec_u32_to_from_le_bytes;
use crate::accessor::{ChannelDisplaySettings, DisplaySettings};
use crate::document::{
    channel_description, channel_description_spec, channel_descriptions, described_channels,
    description_views, dimension_info, dimension_info_spec, display_settings_spec,
    general_document_info, general_document_info_spec, scaling_path, scaling_text, Axis,
    ChannelDescription, ChannelDescriptionView, MAX_CHANNEL,
};
use crate::xml::element_text;
use vstd::prelude::*;
use vstd::slice::{slice_subrange, slice_to_vec};
use vstd::utf8::encode_utf8;

verus! {

/// The metadata of a document as XML, in the bytes that the container holds.
#[derive(Debug)]
pub struct MetadataAsXml {
    pub data: Vec<u8>,
}

/// The metadata that is to be written to a document.
#[derive(Debug)]
pub struct WriteMetadataInfo {
    /// How many bytes of `metadata` are meant.
    pub size_metadata: u32,
    /// The XML text, in UTF-8.
    pub metadata: Vec<u8>,
}

/// The size of one pixel along each axis, in metres. Each number is kept as
/// the 64 bits of an IEEE 754 double.
#[derive(Clone, Copy, Debug, PartialEq, Eq, Structural)]
pub struct ScalingInfo {
    pub scale_x: u64,
    pub scale_y: u64,
    pub scale_z: u64,
}

impl Clone for MetadataAsXml {
    fn clone(&self) -> (copy: Self)
        ensures
            copy.data@ == self.data@,
    {
        MetadataAsXml { data: self.data.clone() }
    }
}

impl MetadataAsXml {
    /// The XML as a text, or `InvalidUtf8` where the bytes are no text.
    pub fn get_data(&self) -> (xml: Result<String, CziError>)
        ensures
            match xml {
                Ok(text) => utf8_text(self.data@) == Ok::<Seq<u8>, CziError>(encode_utf8(text@)),
                Err(e) => utf8_text(self.data@) == Err::<Seq<u8>, CziError>(e),
            },
    {
        match text_from_utf8(self.data.as_slice()) {
            Ok(text) => Ok(text.to_owned()),
            Err(e) => Err(e),
        }
    }
}

impl Clone for WriteMetadataInfo {
    fn clone(&self) -> (copy: Self)
        ensures
            copy.size_metadata == self.size_metadata,
            copy.metadata@ == self.metadata@,
    {
        WriteMetadataInfo { size_metadata: self.size_metadata, metadata: self.metadata.clone() }
    }
}

impl WriteMetadataInfo {
    /// Gathers the metadata to write. The text is copied; its size is taken
    /// as given.
    pub fn new(size_metadata: u32, metadata: &[u8]) -> (info: Self)
        ensures
            info.size_metadata == size_metadata,
            info.metadata@ == metadata@,
    {
        WriteMetadataInfo { size_metadata, metadata: slice_to_vec(metadata) }
    }

    pub fn get_size_metadata(&self) -> (size_metadata: u32)
        ensures
            size_metadata == self.size_metadata,
    {
        self.size_metadata
    }

    pub fn get_metadata(&self) -> (metadata: Vec<u8>)
        ensures
            metadata@ == self.metadata@,
    {
        self.metadata.clone()
    }

    pub fn set_size_metadata(&mut self, size_metadata: u32)
        ensures
            *final(self) == (WriteMetadataInfo { size_metadata, ..*old(self) }),
    {
        self.size_metadata = size_metadata;
    }

    /// Takes a copy of the bytes and sets `size_metadata` to their number.
    pub fn set_metadata(&mut self, metadata: &[u8])
        requires
            metadata@.len() <= u32::MAX,
        ensures
            final(self).metadata@ == metadata@,
            final(self).size_metadata == metadata@.len(),
            *final(self) == (WriteMetadataInfo {
                metadata: final(self).metadata,
                size_metadata: final(self).size_metadata,
                ..*old(self)
            }),
    {
        self.size_metadata = metadata.len() as u32;
        self.metadata = slice_to_vec(metadata);
    }
}

impl ScalingInfo {
    pub fn new(scale_x: u64, scale_y: u64, scale_z: u64) -> (info: Self)
        ensures
            info == (ScalingInfo { scale_x, scale_y, scale_z }),
    {
        ScalingInfo { scale_x, scale_y, scale_z }
    }

    pub fn get_scale_x(&self) -> (scale_x: u64)
        ensures
            scale_x == self.scale_x,
    {
        self.scale_x
    }

    pub fn get_scale_y(&self) -> (scale_y: u64)
        ensures
            scale_y == self.scale_y,
    {
        self.scale_y
    }

    pub fn get_scale_z(&self) -> (scale_z: u64)
        ensures
            scale_z == self.scale_z,
    {
        self.scale_z
    }

    pub fn set_scale_x(&mut self, scale_x: u64)
        ensures
            *final(self) == (ScalingInfo { scale_x, ..*old(self) }),
    {
        self.scale_x = scale_x;
    }

    pub fn set_scale_y(&mut self, scale_y: u64)
        ensures
            *final(self) == (ScalingInfo { scale_y, ..*old(self) }),
    {
        self.scale_y = scale_y;
    }

    pub fn set_scale_z(&mut self, scale_z: u64)
        ensures
            *final(self) == (ScalingInfo { scale_z, ..*old(self) }),
    {
        self.scale_z = scale_z;
    }
}

/// How many bytes stand before the XML text in the payload of a metadata
/// segment.
pub const METADATA_HEAD_SIZE: usize = 256;

/// The metadata segment of a document: its XML text, in the bytes that the
/// container holds.
#[derive(Debug)]
pub struct MetadataSegment {
    xml: Vec<u8>,
}

/// What is drawn from the metadata of a document, over the XML text it is
/// drawn from.
#[derive(Debug)]
pub struct CziDocumentInfo {
    xml: Vec<u8>,
}

/// The bits of the 64-bit float that is not a number.
pub const NOT_A_NUMBER: u64 = 0x7ff8_0000_0000_0000;

/// The bits of a size that was stated, and those of the float that is not
/// a number for a size that was not.
pub open spec fn stated_or_unknown(stated: Option<u64>) -> u64 {
    match stated {
        Some(bits) => bits,
        None => NOT_A_NUMBER,
    }
}

/// The payload of a metadata segment: the size of the XML text, the size of
/// an attachment to it, which is always 0, zero bytes up to the size of the
/// head, and the XML text.
pub open spec fn metadata_payload(xml: Seq<u8>) -> Seq<u8> {
    u32_bytes(xml.len() as u32) + u32_bytes(0) + zeros(248) + xml
}

/// What a payload says as metadata: the XML text, or `CorruptData` where
/// the payload is shorter than its head or the size that the head states is
/// not the size of what follows it.
pub open spec fn parse_metadata(payload: Seq<u8>) -> Result<Seq<u8>, LibCZIApiError> {
    if payload.len() < 256 || 256 + u32_at(payload, 0) != payload.len() {
        Err(LibCZIApiError::CorruptData)
    } else {
        Ok(payload.subrange(256, payload.len() as int))
    }
}

/// An XML text whose size is a 32-bit number is read back from its payload.
pub proof fn lemma_metadata_round_trip(xml: Seq<u8>)
    requires
        xml.len() <= u32::MAX,
    ensures
        metadata_payload(xml).len() == 256 + xml.len(),
        parse_metadata(metadata_payload(xml)) == Ok::<Seq<u8>, LibCZIApiError>(xml),
{
    lemma_auto_spec_u32_to_from_le_bytes();
    let payload = metadata_payload(xml);
    assert(payload.subrange(0, 4) == u32_bytes(xml.len() as u32));
    lemma_u32_field(payload, 0, xml.len() as u32);
    assert(payload.subrange(256, payload.len() as int) == xml);
}

/// The payload of a metadata segment.
pub fn write_metadata_payload(xml: &[u8]) -> (payload: Vec<u8>)
    requires
        xml@.len() <= u32::MAX,
    ensures
        payload@ == metadata_payload(xml@),
{
    let mut payload: Vec<u8> = Vec::new();
    put_u32(&mut payload, xml.len() as u32);
    put_u32(&mut payload, 0);
    put_zeros(&mut payload, 248);
    put_slice(&mut payload, xml);
    payload
}

/// The metadata segment that a payload holds.
pub fn read_metadata_payload(payload: &[u8]) -> (segment: Result<MetadataSegment, LibCZIApiError>)
    ensures
        match segment {
            Ok(found) => parse_metadata(payload@) == Ok::<Seq<u8>, LibCZIApiError>(found@),
            Err(e) => parse_metadata(payload@) == Err::<Seq<u8>, LibCZIApiError>(e),
        },
{
    let size: usize = payload.len();
    if size < 256 {
        return Err(LibCZIApiError::CorruptData);
    }
    let xml_size: u32 = get_u32(payload, 0);
    if xml_size as u64 != (size - 256) as u64 {
        return Err(LibCZIApiError::CorruptData);
    }
    Ok(MetadataSegment { xml: slice_to_vec(slice_subrange(payload, 256, size)) })
}

impl View for MetadataSegment {
    type V = Seq<u8>;

    closed spec fn view(&self) -> Seq<u8> {
        self.xml@
    }
}

impl Clone for MetadataSegment {
    fn clone(&self) -> (copy: Self)
        ensures
            copy@ == self@,
    {
        MetadataSegment { xml: self.xml.clone() }
    }
}

impl MetadataSegment {
    /// A metadata segment over the given XML text.
    pub fn from_bytes(xml: Vec<u8>) -> (segment: Self)
        ensures
            segment@ == xml@,
    {
        MetadataSegment { xml }
    }

    /// The XML text of the segment. The call always succeeds.
    pub fn get_metadata_as_xml(&self) -> (xml: Result<MetadataAsXml, LibCZIApiError>)
        ensures
            xml matches Ok(found) && found.data@ == self@,
    {
        Ok(MetadataAsXml { data: self.xml.clone() })
    }

    /// What is drawn from the metadata, over a copy of the XML text. The
    /// call always succeeds.
    pub fn get_czi_document_info(&self) -> (info: Result<CziDocumentInfo, LibCZIApiError>)
        ensures
            info matches Ok(found) && found@ == self@,
    {
        Ok(CziDocumentInfo { xml: self.xml.clone() })
    }

    /// Gives the segment up. The call always succeeds.
    pub fn release(self) -> (done: Result<(), LibCZIApiError>)
        ensures
            done is Ok,
    {
        Ok(())
    }
}

impl View for CziDocumentInfo {
    type V = Seq<u8>;

    closed spec fn view(&self) -> Seq<u8> {
        self.xml@
    }
}

impl Clone for CziDocumentInfo {
    fn clone(&self) -> (copy: Self)
        ensures
            copy@ == self@,
    {
        CziDocumentInfo { xml: self.xml.clone() }
    }
}

impl CziDocumentInfo {
    /// The XML text that the information is drawn from.
    pub fn xml(&self) -> (xml: &[u8])
        ensures
            xml@ == self@,
    {
        self.xml.as_slice()
    }

    /// What the document says of itself, as a JSON text: an object with
    /// the members `name`, `title`, `user_name`, `description`, `comment`,
    /// `keywords`, `rating` and `creation_date`, as far as the XML text
    /// has them; see `general_document_info_spec`.
    pub fn get_general_document_info(&self) -> (json: Result<String, LibCZIApiError>)
        ensures
            match json {
                Ok(text) => general_document_info_spec(self@) == Ok::<Seq<u8>, LibCZIApiError>(
                    encode_utf8(text@),
                ),
                Err(e) => general_document_info_spec(self@) == Err::<Seq<u8>, LibCZIApiError>(e),
            },
    {
        general_document_info(self.xml.as_slice())
    }

    /// The text in which the document says how large a pixel is along an
    /// axis, in metres, or `None` where it does not say so; see
    /// `scaling_path` for where the text stands.
    pub fn get_scaling_text(&self, axis: Axis) -> (text: Result<Option<Vec<u8>>, LibCZIApiError>)
        ensures
            match text {
                Ok(Some(content)) => element_text(self@, scaling_path(axis)) == Ok::<
                    Option<Seq<u8>>,
                    LibCZIApiError,
                >(Some(content@)),
                Ok(None) => element_text(self@, scaling_path(axis)) == Ok::<
                    Option<Seq<u8>>,
                    LibCZIApiError,
                >(None),
                Err(e) => element_text(self@, scaling_path(axis)) == Err::<
                    Option<Seq<u8>>,
                    LibCZIApiError,
                >(e),
            },
    {
        scaling_text(self.xml.as_slice(), axis)
    }

    /// What the document says of the dimension with the given number, as
    /// a JSON text: an object with the letter of the dimension and, where
    /// the document states it, its size; see `dimension_info_spec`.
    pub fn get_dimension_info(&self, dimension_index: u32) -> (json: Result<String, LibCZIApiError>)
        ensures
            match json {
                Ok(text) => dimension_info_spec(self@, dimension_index) == Ok::<
                    Seq<u8>,
                    LibCZIApiError,
                >(encode_utf8(text@)),
                Err(e) => dimension_info_spec(self@, dimension_index) == Err::<
                    Seq<u8>,
                    LibCZIApiError,
                >(e),
            },
    {
        dimension_info(self.xml.as_slice(), dimension_index)
    }

    /// What the document says of how the channel with the given number is
    /// shown, or `None` where it says nothing of the channel; see
    /// `channel_description_spec`.
    pub fn get_channel_description(&self, channel: u32) -> (description: Result<
        Option<ChannelDescription>,
        LibCZIApiError,
    >)
        ensures
            match description {
                Ok(Some(found)) => channel_description_spec(self@, channel) == Ok::<
                    Option<ChannelDescriptionView>,
                    LibCZIApiError,
                >(Some(found@)),
                Ok(None) => channel_description_spec(self@, channel) == Ok::<
                    Option<ChannelDescriptionView>,
                    LibCZIApiError,
                >(None),
                Err(e) => channel_description_spec(self@, channel) == Err::<
                    Option<ChannelDescriptionView>,
                    LibCZIApiError,
                >(e),
            },
    {
        channel_description(self.xml.as_slice(), channel)
    }

    /// The size of a pixel along each axis, in metres, as the bits of
    /// 64-bit floats. The sizes are handed over as the bits of the floats
    /// that the texts of `get_scaling_text` stand for, `None` for an axis
    /// whose text stands for none; such an axis gets the bits of the float
    /// that is not a number.
    pub fn get_scaling_info(&self, scale_x: Option<u64>, scale_y: Option<u64>, scale_z: Option<u64>) -> (info:
        ScalingInfo)
        ensures
            info == (ScalingInfo {
                scale_x: stated_or_unknown(scale_x),
                scale_y: stated_or_unknown(scale_y),
                scale_z: stated_or_unknown(scale_z),
            }),
    {
        ScalingInfo {
            scale_x: match scale_x {
                Some(bits) => bits,
                None => NOT_A_NUMBER,
            },
            scale_y: match scale_y {
                Some(bits) => bits,
                None => NOT_A_NUMBER,
            },
            scale_z: match scale_z {
                Some(bits) => bits,
                None => NOT_A_NUMBER,
            },
        }
    }

    /// How the channels of the document are shown. The black points and
    /// the white points are handed over, for each channel of
    /// `get_channel_descriptions`, as the bits of the floats that the texts
    /// of its description stand for; see `display_settings_spec`.
    pub fn get_display_settings(&self, points: &Vec<(Option<u32>, Option<u32>)>) -> (settings: Result<
        DisplaySettings,
        LibCZIApiError,
    >)
        ensures
            match settings {
                Ok(made) => display_settings_spec(self@, points@) == Ok::<
                    Seq<ChannelDisplaySettings>,
                    LibCZIApiError,
                >(made.channels@),
                Err(e) => display_settings_spec(self@, points@) == Err::<
                    Seq<ChannelDisplaySettings>,
                    LibCZIApiError,
                >(e),
            },
    {
        match channel_descriptions(self.xml.as_slice()) {
            Ok(descriptions) => DisplaySettings::from_descriptions(&descriptions, points),
            Err(e) => Err(e),
        }
    }

    /// What the document says of how its channels are shown: of the
    /// channels with the numbers from 0 on, up to the first number of which
    /// it says nothing; see `described_channels`.
    pub fn get_channel_descriptions(&self) -> (channels: Result<
        Vec<ChannelDescription>,
        LibCZIApiError,
    >)
        ensures
            match channels {
                Ok(found) => described_channels(self@, MAX_CHANNEL as nat) == Ok::<
                    Seq<ChannelDescriptionView>,
                    LibCZIApiError,
                >(description_views(found@)),
                Err(e) => described_channels(self@, MAX_CHANNEL as nat) == Err::<
                    Seq<ChannelDescriptionView>,
                    LibCZIApiError,
                >(e),
            },
    {
        channel_descriptions(self.xml.as_slice())
    }

    /// Gives the information up. The call always succeeds.
    pub fn release(self) -> (done: Result<(), LibCZIApiError>)
        ensures
            done is Ok,
    {
        Ok(())
    }
}

} // verus!
