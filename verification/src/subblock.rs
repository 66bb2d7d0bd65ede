//! Sub-blocks: one tile of pixel data each, with the place it has in the
//! document.
//!
//! The data of a sub-block holds the pixels as they are, or a Zstandard
//! frame with the pixels, which is decompressed. Decoding gives the pixels
//! as a bitmap.

use crate::bitmap::{layout_is_valid, Bitmap, BitmapInfo};
use crate::coordinate::Coordinate;
use crate::dimension::Dimension;
use crate::error::{CziError, LibCZIApiError};
use crate::geometry::{IntRect, IntSize};
use crate::pixel::{PixelType, RawDataType};
use crate::zstd::{
    frame_content, frame_start, lemma_stored_content_is_frame_content,
    lemma_stored_frame_round_trip, put_bytes_together, put_together,
    read_frame, read_frame_start, stored_frame,
};
use crate::wire::{
    get_i32, get_u32, get_u64, has_bytes_at, i32_at, i32_bytes, lemma_i32_field, lemma_u32_field,
    lemma_u64_field, put_i32, put_slice, put_u32, put_u64, put_zeros, u32_at, u32_bytes, u64_at,
    u64_bytes, zeros,
};
use vstd::array::{spec_array_fill_for_copy_type, spec_array_update};
use vstd::bytes::{lemma_auto_spec_u32_to_from_le_bytes, lemma_auto_spec_u64_to_from_le_bytes};
use vstd::std_specs::convert::TryFromSpecImpl;
use vstd::prelude::*;
use vstd::slice::{slice_subrange, slice_to_vec};

verus! {

/// The M-index that says "this sub-block has no M-index".
pub const NO_M_INDEX: i32 = i32::MIN;

/// The compression mode of data that is stored as it is.
pub const COMPRESSION_NONE: i32 = 0;

/// The number of the first manner of compression with Zstandard: the data
/// is a frame.
pub const COMPRESSION_ZSTD0: i32 = 5;

/// The number of the second manner of compression with Zstandard: the data
/// is a frame with a few bytes in front of it.
pub const COMPRESSION_ZSTD1: i32 = 6;

/// One line of the sub-block directory: what is known of a sub-block, and
/// where in the container its segment starts.
#[derive(Clone, Copy, Debug)]
pub struct SubBlockDirectoryEntry {
    pub coordinate: Coordinate,
    /// The rectangle that the sub-block covers on the plane.
    pub logical_rect: IntRect,
    /// The size of the stored bitmap.
    pub physical_size: IntSize,
    /// The pixel type, as its number.
    pub pixel_type: i32,
    /// The compression mode, as the number the container stores for it.
    pub compression_mode_raw: i32,
    /// Whether the sub-block has an M-index.
    pub m_index_valid: bool,
    pub m_index: i32,
    /// The offset of the sub-block's segment in the container.
    pub file_position: u64,
}

impl SubBlockDirectoryEntry {
    /// What a directory takes in: a coordinate over known dimensions, a
    /// rectangle and a stored size that are not negative, and an M-index, if
    /// there is one, other than the number that says "none".
    pub open spec fn is_admissible_spec(self) -> bool {
        &&& self.coordinate.is_valid_spec()
        &&& self.logical_rect.is_valid_spec()
        &&& self.physical_size.w >= 0
        &&& self.physical_size.h >= 0
        &&& self.m_index_valid ==> self.m_index != NO_M_INDEX
    }

    /// The scene that the sub-block belongs to, if it belongs to one.
    pub open spec fn scene_spec(self) -> Option<i32> {
        self.coordinate.value_of(Dimension::S)
    }

    /// Whether the sub-block is stored at full resolution: the stored bitmap
    /// is as large as the rectangle it covers.
    pub open spec fn is_layer0_spec(self) -> bool {
        self.physical_size.w == self.logical_rect.w && self.physical_size.h == self.logical_rect.h
    }

    /// What the entry says of the sub-block, without the place of its segment.
    pub open spec fn info_spec(self) -> SubBlockInfo {
        SubBlockInfo {
            compression_mode_raw: self.compression_mode_raw,
            pixel_type: self.pixel_type,
            coordinate: self.coordinate,
            logical_rect: self.logical_rect,
            physical_size: self.physical_size,
            m_index: if self.m_index_valid {
                self.m_index
            } else {
                NO_M_INDEX
            },
        }
    }

    /// Whether two entries stand for the same sub-block: the same place in
    /// every dimension, the same M-index, and the same rectangle.
    pub open spec fn same_identity_spec(self, other: SubBlockDirectoryEntry) -> bool {
        &&& self.coordinate.same_position_spec(other.coordinate)
        &&& self.m_index_valid == other.m_index_valid
        &&& self.m_index_valid ==> self.m_index == other.m_index
        &&& self.logical_rect == other.logical_rect
    }

    /// Whether a directory takes the entry in.
    pub fn is_admissible(&self) -> (admissible: bool)
        ensures
            admissible == self.is_admissible_spec(),
    {
        self.coordinate.is_valid() && self.logical_rect.is_valid() && self.physical_size.w >= 0
            && self.physical_size.h >= 0 && (!self.m_index_valid || self.m_index != NO_M_INDEX)
    }

    /// The scene that the sub-block belongs to, if it belongs to one.
    pub fn scene(&self) -> (scene: Option<i32>)
        ensures
            scene == self.scene_spec(),
    {
        self.coordinate.try_get(Dimension::S)
    }

    /// Whether the sub-block is stored at full resolution.
    pub fn is_layer0(&self) -> (lowest: bool)
        ensures
            lowest == self.is_layer0_spec(),
    {
        self.physical_size.w == self.logical_rect.w && self.physical_size.h == self.logical_rect.h
    }

    /// What the entry says of the sub-block, without the place of its segment.
    pub fn info(&self) -> (info: SubBlockInfo)
        ensures
            info == self.info_spec(),
    {
        SubBlockInfo {
            compression_mode_raw: self.compression_mode_raw,
            pixel_type: self.pixel_type,
            coordinate: self.coordinate,
            logical_rect: self.logical_rect,
            physical_size: self.physical_size,
            m_index: if self.m_index_valid {
                self.m_index
            } else {
                NO_M_INDEX
            },
        }
    }

    /// Whether two entries stand for the same sub-block.
    pub fn same_identity(&self, other: &SubBlockDirectoryEntry) -> (same: bool)
        ensures
            same == self.same_identity_spec(*other),
    {
        self.coordinate.same_position(&other.coordinate) && self.m_index_valid
            == other.m_index_valid && (!self.m_index_valid || self.m_index == other.m_index)
            && self.logical_rect.x == other.logical_rect.x && self.logical_rect.y
            == other.logical_rect.y && self.logical_rect.w == other.logical_rect.w
            && self.logical_rect.h == other.logical_rect.h
    }
}

/// What is known of a sub-block without its data.
#[derive(Clone, Copy, Debug)]
pub struct SubBlockInfo {
    /// The compression mode, as the number the container stores for it.
    pub compression_mode_raw: i32,
    /// The pixel type, as its number.
    pub pixel_type: i32,
    /// The coordinate of the sub-block.
    pub coordinate: Coordinate,
    /// The rectangle that the sub-block covers on the plane.
    pub logical_rect: IntRect,
    /// The size of the stored bitmap. It is smaller than the rectangle on a
    /// pyramid layer above the lowest.
    pub physical_size: IntSize,
    /// The M-index, or `NO_M_INDEX`.
    pub m_index: i32,
}

/// A sub-block that is to be added to a document.
#[derive(Debug)]
pub struct AddSubBlockInfo {
    pub coordinate: Coordinate,
    /// Whether `m_index` is meant; zero says no.
    pub m_index_valid: u8,
    pub m_index: i32,
    pub x: i32,
    pub y: i32,
    pub logical_width: i32,
    pub logical_height: i32,
    pub physical_width: i32,
    pub physical_height: i32,
    /// The pixel type, as its number.
    pub pixel_type: i32,
    pub compression_mode_raw: i32,
    /// How many bytes of `data` belong to the sub-block.
    pub size_data: u32,
    pub data: Vec<u8>,
    /// How many bytes lie between the starts of two rows of uncompressed data.
    pub stride: u32,
    pub size_metadata: u32,
    pub metadata: Vec<u8>,
    pub size_attachment: u32,
    pub attachment: Vec<u8>,
}

impl SubBlockInfo {
    pub fn new(
        compression_mode_raw: i32,
        pixel_type: PixelType,
        coordinate: Coordinate,
        logical_rect: IntRect,
        physical_size: IntSize,
        m_index: i32,
    ) -> (info: Self)
        ensures
            info == (SubBlockInfo {
                compression_mode_raw,
                pixel_type: pixel_type.code_spec() as i32,
                coordinate,
                logical_rect,
                physical_size,
                m_index,
            }),
    {
        SubBlockInfo {
            compression_mode_raw,
            pixel_type: pixel_type.code(),
            coordinate,
            logical_rect,
            physical_size,
            m_index,
        }
    }

    /// What the stored number says of the pixel type.
    pub open spec fn pixel_type_spec(self) -> Result<PixelType, CziError> {
        match PixelType::of_code(self.pixel_type as int) {
            Some(found) => Ok(found),
            None => Err(CziError::UnknownPixelType(self.pixel_type)),
        }
    }

    /// Whether the sub-block has an M-index.
    pub open spec fn has_m_index_spec(self) -> bool {
        self.m_index != NO_M_INDEX
    }

    /// Whether the sub-block is stored at full resolution: the stored bitmap
    /// is as large as the rectangle it covers.
    pub open spec fn is_layer0_spec(self) -> bool {
        self.physical_size.w == self.logical_rect.w && self.physical_size.h == self.logical_rect.h
    }

    /// Whether the sub-block has an M-index.
    pub fn has_m_index(&self) -> (has: bool)
        ensures
            has == self.has_m_index_spec(),
    {
        self.m_index != NO_M_INDEX
    }

    /// Whether the sub-block is stored at full resolution.
    pub fn is_layer0(&self) -> (lowest: bool)
        ensures
            lowest == self.is_layer0_spec(),
    {
        self.physical_size.w == self.logical_rect.w && self.physical_size.h == self.logical_rect.h
    }

    /// The pixel type, or `UnknownPixelType` where the stored number stands
    /// for none.
    pub fn get_pixel_type(&self) -> (pixel_type: Result<PixelType, CziError>)
        ensures
            pixel_type == self.pixel_type_spec(),
    {
        PixelType::try_from(self.pixel_type)
    }

    pub fn set_pixel_type(&mut self, pixel_type: PixelType)
        ensures
            *final(self) == (SubBlockInfo { pixel_type: pixel_type.code_spec() as i32, ..*old(self) }),
    {
        self.pixel_type = pixel_type.code();
    }

    pub fn get_compression_mode_raw(&self) -> (compression_mode_raw: i32)
        ensures
            compression_mode_raw == self.compression_mode_raw,
    {
        self.compression_mode_raw
    }

    pub fn get_coordinate(&self) -> (coordinate: Coordinate)
        ensures
            coordinate == self.coordinate,
    {
        self.coordinate
    }

    pub fn get_logical_rect(&self) -> (logical_rect: IntRect)
        ensures
            logical_rect == self.logical_rect,
    {
        self.logical_rect
    }

    pub fn get_physical_size(&self) -> (physical_size: IntSize)
        ensures
            physical_size == self.physical_size,
    {
        self.physical_size
    }

    pub fn get_m_index(&self) -> (m_index: i32)
        ensures
            m_index == self.m_index,
    {
        self.m_index
    }

    pub fn set_compression_mode_raw(&mut self, compression_mode_raw: i32)
        ensures
            *final(self) == (SubBlockInfo { compression_mode_raw, ..*old(self) }),
    {
        self.compression_mode_raw = compression_mode_raw;
    }

    pub fn set_coordinate(&mut self, coordinate: Coordinate)
        ensures
            *final(self) == (SubBlockInfo { coordinate, ..*old(self) }),
    {
        self.coordinate = coordinate;
    }

    pub fn set_logical_rect(&mut self, logical_rect: IntRect)
        ensures
            *final(self) == (SubBlockInfo { logical_rect, ..*old(self) }),
    {
        self.logical_rect = logical_rect;
    }

    pub fn set_physical_size(&mut self, physical_size: IntSize)
        ensures
            *final(self) == (SubBlockInfo { physical_size, ..*old(self) }),
    {
        self.physical_size = physical_size;
    }

    pub fn set_m_index(&mut self, m_index: i32)
        ensures
            *final(self) == (SubBlockInfo { m_index, ..*old(self) }),
    {
        self.m_index = m_index;
    }
}

impl Clone for AddSubBlockInfo {
    fn clone(&self) -> (copy: Self)
        ensures
            copy.data@ == self.data@,
            copy.metadata@ == self.metadata@,
            copy.attachment@ == self.attachment@,
            copy == (AddSubBlockInfo {
                data: copy.data,
                metadata: copy.metadata,
                attachment: copy.attachment,
                ..*self
            }),
    {
        AddSubBlockInfo {
            coordinate: self.coordinate,
            m_index_valid: self.m_index_valid,
            m_index: self.m_index,
            x: self.x,
            y: self.y,
            logical_width: self.logical_width,
            logical_height: self.logical_height,
            physical_width: self.physical_width,
            physical_height: self.physical_height,
            pixel_type: self.pixel_type,
            compression_mode_raw: self.compression_mode_raw,
            size_data: self.size_data,
            data: self.data.clone(),
            stride: self.stride,
            size_metadata: self.size_metadata,
            metadata: self.metadata.clone(),
            size_attachment: self.size_attachment,
            attachment: self.attachment.clone(),
        }
    }
}

impl AddSubBlockInfo {
    /// Gathers what describes a sub-block. The three buffers are copied; the
    /// three sizes are taken as given.
    pub fn new(
        coordinate: Coordinate,
        m_index_valid: u8,
        m_index: i32,
        x: i32,
        y: i32,
        logical_width: i32,
        logical_height: i32,
        physical_width: i32,
        physical_height: i32,
        pixel_type: PixelType,
        compression_mode_raw: i32,
        size_data: u32,
        data: &[u8],
        stride: u32,
        size_metadata: u32,
        metadata: &[u8],
        size_attachment: u32,
        attachment: &[u8],
    ) -> (info: Self)
        ensures
            info.data@ == data@,
            info.metadata@ == metadata@,
            info.attachment@ == attachment@,
            info == (AddSubBlockInfo {
                coordinate,
                m_index_valid,
                m_index,
                x,
                y,
                logical_width,
                logical_height,
                physical_width,
                physical_height,
                pixel_type: pixel_type.code_spec() as i32,
                compression_mode_raw,
                size_data,
                data: info.data,
                stride,
                size_metadata,
                metadata: info.metadata,
                size_attachment,
                attachment: info.attachment,
            }),
    {
        AddSubBlockInfo {
            coordinate,
            m_index_valid,
            m_index,
            x,
            y,
            logical_width,
            logical_height,
            physical_width,
            physical_height,
            pixel_type: pixel_type.code(),
            compression_mode_raw,
            size_data,
            data: slice_to_vec(data),
            stride,
            size_metadata,
            metadata: slice_to_vec(metadata),
            size_attachment,
            attachment: slice_to_vec(attachment),
        }
    }

    /// What the stored number says of the pixel type.
    pub open spec fn pixel_type_spec(self) -> Result<PixelType, CziError> {
        match PixelType::of_code(self.pixel_type as int) {
            Some(found) => Ok(found),
            None => Err(CziError::UnknownPixelType(self.pixel_type)),
        }
    }

    /// The pixel type, or `UnknownPixelType` where the stored number stands
    /// for none.
    pub fn get_pixel_type(&self) -> (pixel_type: Result<PixelType, CziError>)
        ensures
            pixel_type == self.pixel_type_spec(),
    {
        PixelType::try_from(self.pixel_type)
    }

    pub fn get_stride(&self) -> (stride: u32)
        ensures
            stride == self.stride,
    {
        self.stride
    }

    pub fn set_pixel_type(&mut self, pixel_type: PixelType)
        ensures
            *final(self) == (AddSubBlockInfo {
                pixel_type: pixel_type.code_spec() as i32,
                ..*old(self)
            }),
    {
        self.pixel_type = pixel_type.code();
    }

    pub fn set_stride(&mut self, stride: u32)
        ensures
            *final(self) == (AddSubBlockInfo { stride, ..*old(self) }),
    {
        self.stride = stride;
    }

    pub fn get_coordinate(&self) -> (coordinate: Coordinate)
        ensures
            coordinate == self.coordinate,
    {
        self.coordinate
    }

    pub fn get_m_index_valid(&self) -> (m_index_valid: u8)
        ensures
            m_index_valid == self.m_index_valid,
    {
        self.m_index_valid
    }

    pub fn get_m_index(&self) -> (m_index: i32)
        ensures
            m_index == self.m_index,
    {
        self.m_index
    }

    pub fn get_x(&self) -> (x: i32)
        ensures
            x == self.x,
    {
        self.x
    }

    pub fn get_y(&self) -> (y: i32)
        ensures
            y == self.y,
    {
        self.y
    }

    pub fn get_logical_width(&self) -> (logical_width: i32)
        ensures
            logical_width == self.logical_width,
    {
        self.logical_width
    }

    pub fn get_logical_height(&self) -> (logical_height: i32)
        ensures
            logical_height == self.logical_height,
    {
        self.logical_height
    }

    pub fn get_physical_width(&self) -> (physical_width: i32)
        ensures
            physical_width == self.physical_width,
    {
        self.physical_width
    }

    pub fn get_physical_height(&self) -> (physical_height: i32)
        ensures
            physical_height == self.physical_height,
    {
        self.physical_height
    }

    pub fn get_compression_mode_raw(&self) -> (compression_mode_raw: i32)
        ensures
            compression_mode_raw == self.compression_mode_raw,
    {
        self.compression_mode_raw
    }

    pub fn get_size_data(&self) -> (size_data: u32)
        ensures
            size_data == self.size_data,
    {
        self.size_data
    }

    pub fn get_data(&self) -> (data: Vec<u8>)
        ensures
            data@ == self.data@,
    {
        self.data.clone()
    }

    pub fn get_size_metadata(&self) -> (size_metadata: u32)
        ensures
            size_metadata == self.size_metadata,
    {
        self.size_metadata
    }

    pub fn get_metadata(&self) -> (metadata: Vec<u8>)
        ensures
            metadata@ == self.metadata@,
    {
        self.metadata.clone()
    }

    pub fn get_size_attachment(&self) -> (size_attachment: u32)
        ensures
            size_attachment == self.size_attachment,
    {
        self.size_attachment
    }

    pub fn get_attachment(&self) -> (attachment: Vec<u8>)
        ensures
            attachment@ == self.attachment@,
    {
        self.attachment.clone()
    }

    pub fn set_coordinate(&mut self, coordinate: Coordinate)
        ensures
            *final(self) == (AddSubBlockInfo { coordinate, ..*old(self) }),
    {
        self.coordinate = coordinate;
    }

    pub fn set_m_index_valid(&mut self, m_index_valid: u8)
        ensures
            *final(self) == (AddSubBlockInfo { m_index_valid, ..*old(self) }),
    {
        self.m_index_valid = m_index_valid;
    }

    pub fn set_m_index(&mut self, m_index: i32)
        ensures
            *final(self) == (AddSubBlockInfo { m_index, ..*old(self) }),
    {
        self.m_index = m_index;
    }

    pub fn set_x(&mut self, x: i32)
        ensures
            *final(self) == (AddSubBlockInfo { x, ..*old(self) }),
    {
        self.x = x;
    }

    pub fn set_y(&mut self, y: i32)
        ensures
            *final(self) == (AddSubBlockInfo { y, ..*old(self) }),
    {
        self.y = y;
    }

    pub fn set_logical_width(&mut self, logical_width: i32)
        ensures
            *final(self) == (AddSubBlockInfo { logical_width, ..*old(self) }),
    {
        self.logical_width = logical_width;
    }

    pub fn set_logical_height(&mut self, logical_height: i32)
        ensures
            *final(self) == (AddSubBlockInfo { logical_height, ..*old(self) }),
    {
        self.logical_height = logical_height;
    }

    pub fn set_physical_width(&mut self, physical_width: i32)
        ensures
            *final(self) == (AddSubBlockInfo { physical_width, ..*old(self) }),
    {
        self.physical_width = physical_width;
    }

    pub fn set_physical_height(&mut self, physical_height: i32)
        ensures
            *final(self) == (AddSubBlockInfo { physical_height, ..*old(self) }),
    {
        self.physical_height = physical_height;
    }

    pub fn set_compression_mode_raw(&mut self, compression_mode_raw: i32)
        ensures
            *final(self) == (AddSubBlockInfo { compression_mode_raw, ..*old(self) }),
    {
        self.compression_mode_raw = compression_mode_raw;
    }

    pub fn set_size_data(&mut self, size_data: u32)
        ensures
            *final(self) == (AddSubBlockInfo { size_data, ..*old(self) }),
    {
        self.size_data = size_data;
    }

    /// Takes a copy of the bytes and sets `size_data` to their number.
    pub fn set_data(&mut self, data: &[u8])
        requires
            data@.len() <= u32::MAX,
        ensures
            final(self).data@ == data@,
            final(self).size_data == data@.len(),
            *final(self) == (AddSubBlockInfo {
                data: final(self).data,
                size_data: final(self).size_data,
                ..*old(self)
            }),
    {
        self.size_data = data.len() as u32;
        self.data = slice_to_vec(data);
    }

    pub fn set_size_metadata(&mut self, size_metadata: u32)
        ensures
            *final(self) == (AddSubBlockInfo { size_metadata, ..*old(self) }),
    {
        self.size_metadata = size_metadata;
    }

    /// Takes a copy of the bytes and sets `size_metadata` to their number.
    pub fn set_metadata(&mut self, metadata: &[u8])
        requires
            metadata@.len() <= u32::MAX,
        ensures
            final(self).metadata@ == metadata@,
            final(self).size_metadata == metadata@.len(),
            *final(self) == (AddSubBlockInfo {
                metadata: final(self).metadata,
                size_metadata: final(self).size_metadata,
                ..*old(self)
            }),
    {
        self.size_metadata = metadata.len() as u32;
        self.metadata = slice_to_vec(metadata);
    }

    pub fn set_size_attachment(&mut self, size_attachment: u32)
        ensures
            *final(self) == (AddSubBlockInfo { size_attachment, ..*old(self) }),
    {
        self.size_attachment = size_attachment;
    }

    /// Takes a copy of the bytes and sets `size_attachment` to their number.
    pub fn set_attachment(&mut self, attachment: &[u8])
        requires
            attachment@.len() <= u32::MAX,
        ensures
            final(self).attachment@ == attachment@,
            final(self).size_attachment == attachment@.len(),
            *final(self) == (AddSubBlockInfo {
                attachment: final(self).attachment,
                size_attachment: final(self).size_attachment,
                ..*old(self)
            }),
    {
        self.size_attachment = attachment.len() as u32;
        self.attachment = slice_to_vec(attachment);
    }
}

/// How many bytes a directory entry takes in a container.
pub const ENTRY_SIZE: usize = 128;

/// The four bytes that every directory entry starts with: the letters `DV`
/// and two zero bytes.
pub open spec fn entry_schema() -> Seq<u8> {
    seq![68u8, 86u8, 0u8, 0u8]
}

/// The first part of an entry: the schema, the pixel type, the place of the
/// segment, the compression mode, and which dimensions are present.
pub open spec fn entry_head_bytes(entry: SubBlockDirectoryEntry) -> Seq<u8> {
    entry_schema() + i32_bytes(entry.pixel_type) + u64_bytes(entry.file_position) + i32_bytes(
        entry.compression_mode_raw,
    ) + u32_bytes(entry.coordinate.dimensions_valid)
}

/// The second part of an entry: the nine places for the values of the
/// dimensions.
pub open spec fn entry_values_bytes(value: [i32; 9]) -> Seq<u8> {
    i32_bytes(value[0]) + i32_bytes(value[1]) + i32_bytes(value[2]) + i32_bytes(value[3])
        + i32_bytes(value[4]) + i32_bytes(value[5]) + i32_bytes(value[6]) + i32_bytes(value[7])
        + i32_bytes(value[8])
}

/// The mark that says whether an M-index is meant.
pub open spec fn m_index_mark(valid: bool) -> u32 {
    if valid {
        1
    } else {
        0
    }
}

/// The third part of an entry: the rectangle, the stored size, and the
/// M-index.
pub open spec fn entry_tail_bytes(entry: SubBlockDirectoryEntry) -> Seq<u8> {
    i32_bytes(entry.logical_rect.x) + i32_bytes(entry.logical_rect.y) + i32_bytes(
        entry.logical_rect.w,
    ) + i32_bytes(entry.logical_rect.h) + i32_bytes(entry.physical_size.w) + i32_bytes(
        entry.physical_size.h,
    ) + u32_bytes(m_index_mark(entry.m_index_valid)) + i32_bytes(entry.m_index)
}

/// The 128 bytes of a directory entry: its three parts, and zero bytes up
/// to the full size.
pub open spec fn entry_bytes(entry: SubBlockDirectoryEntry) -> Seq<u8> {
    entry_head_bytes(entry) + entry_values_bytes(entry.coordinate.value) + entry_tail_bytes(entry)
        + zeros(36)
}

/// The nine numbers that stand side by side from `pos` on.
pub open spec fn values_at(bytes: Seq<u8>, pos: int) -> [i32; 9] {
    spec_array_update(
        spec_array_update(
            spec_array_update(
                spec_array_update(
                    spec_array_update(
                        spec_array_update(
                            spec_array_update(
                                spec_array_update(
                                    spec_array_update(
                                        spec_array_fill_for_copy_type::<i32, 9>(0i32),
                                        0,
                                        i32_at(bytes, pos),
                                    ),
                                    1,
                                    i32_at(bytes, pos + 4),
                                ),
                                2,
                                i32_at(bytes, pos + 8),
                            ),
                            3,
                            i32_at(bytes, pos + 12),
                        ),
                        4,
                        i32_at(bytes, pos + 16),
                    ),
                    5,
                    i32_at(bytes, pos + 20),
                ),
                6,
                i32_at(bytes, pos + 24),
            ),
            7,
            i32_at(bytes, pos + 28),
        ),
        8,
        i32_at(bytes, pos + 32),
    )
}

/// What 128 bytes say as a directory entry: `CorruptData` where they do not
/// start with the schema or the mark of the M-index is neither 0 nor 1.
pub open spec fn parse_entry(bytes: Seq<u8>) -> Result<SubBlockDirectoryEntry, LibCZIApiError> {
    if bytes.subrange(0, 4) != entry_schema() || u32_at(bytes, 84) > 1 {
        Err(LibCZIApiError::CorruptData)
    } else {
        Ok(
            SubBlockDirectoryEntry {
                coordinate: Coordinate {
                    dimensions_valid: u32_at(bytes, 20),
                    value: values_at(bytes, 24),
                },
                logical_rect: IntRect {
                    x: i32_at(bytes, 60),
                    y: i32_at(bytes, 64),
                    w: i32_at(bytes, 68),
                    h: i32_at(bytes, 72),
                },
                physical_size: IntSize { w: i32_at(bytes, 76), h: i32_at(bytes, 80) },
                pixel_type: i32_at(bytes, 4),
                compression_mode_raw: i32_at(bytes, 16),
                m_index_valid: u32_at(bytes, 84) == 1,
                m_index: i32_at(bytes, 88),
                file_position: u64_at(bytes, 8),
            },
        )
    }
}

/// The nine numbers that are read from `pos` on are what `values_at` says.
pub proof fn lemma_values_at(bytes: Seq<u8>, pos: int)
    ensures
        forall|k: int| 0 <= k < 9 ==> #[trigger] values_at(bytes, pos)[k] == i32_at(bytes, pos + 4 * k),
{
    let v = values_at(bytes, pos);
    assert(v[0] == i32_at(bytes, pos));
    assert(v[1] == i32_at(bytes, pos + 4));
    assert(v[2] == i32_at(bytes, pos + 8));
    assert(v[3] == i32_at(bytes, pos + 12));
    assert(v[4] == i32_at(bytes, pos + 16));
    assert(v[5] == i32_at(bytes, pos + 20));
    assert(v[6] == i32_at(bytes, pos + 24));
    assert(v[7] == i32_at(bytes, pos + 28));
    assert(v[8] == i32_at(bytes, pos + 32));
}

/// An entry takes 128 bytes, and is read back from them.
pub proof fn lemma_entry_round_trip(entry: SubBlockDirectoryEntry)
    ensures
        entry_bytes(entry).len() == 128,
        parse_entry(entry_bytes(entry)) == Ok::<SubBlockDirectoryEntry, LibCZIApiError>(entry),
{
    lemma_auto_spec_u32_to_from_le_bytes();
    lemma_auto_spec_u64_to_from_le_bytes();
    let bytes = entry_bytes(entry);
    let head = entry_head_bytes(entry);
    let values = entry_values_bytes(entry.coordinate.value);
    let tail = entry_tail_bytes(entry);
    let value = entry.coordinate.value;
    assert(head.len() == 24);
    assert(values.len() == 36);
    assert(tail.len() == 32);
    assert(bytes.subrange(0, 24) == head);
    assert(bytes.subrange(24, 60) == values);
    assert(bytes.subrange(60, 92) == tail);
    assert(bytes.subrange(0, 4) == head.subrange(0, 4));
    assert(head.subrange(0, 4) == entry_schema());
    assert(bytes.subrange(4, 8) == head.subrange(4, 8));
    assert(head.subrange(4, 8) == i32_bytes(entry.pixel_type));
    lemma_i32_field(bytes, 4, entry.pixel_type);
    assert(bytes.subrange(8, 16) == head.subrange(8, 16));
    assert(head.subrange(8, 16) == u64_bytes(entry.file_position));
    lemma_u64_field(bytes, 8, entry.file_position);
    assert(bytes.subrange(16, 20) == head.subrange(16, 20));
    assert(head.subrange(16, 20) == i32_bytes(entry.compression_mode_raw));
    lemma_i32_field(bytes, 16, entry.compression_mode_raw);
    assert(bytes.subrange(20, 24) == head.subrange(20, 24));
    assert(head.subrange(20, 24) == u32_bytes(entry.coordinate.dimensions_valid));
    lemma_u32_field(bytes, 20, entry.coordinate.dimensions_valid);
    assert forall|k: int| 0 <= k < 9 implies i32_at(bytes, 24 + 4 * k) == #[trigger] value[k] by {
        assert(bytes.subrange(24 + 4 * k, 24 + 4 * k + 4) == values.subrange(4 * k, 4 * k + 4));
        assert(values.subrange(4 * k, 4 * k + 4) == i32_bytes(value[k]));
        lemma_i32_field(bytes, 24 + 4 * k, value[k]);
    }
    lemma_values_at(bytes, 24);
    assert(values_at(bytes, 24) =~= value);
    assert(bytes.subrange(60, 64) == tail.subrange(0, 4));
    assert(tail.subrange(0, 4) == i32_bytes(entry.logical_rect.x));
    lemma_i32_field(bytes, 60, entry.logical_rect.x);
    assert(bytes.subrange(64, 68) == tail.subrange(4, 8));
    assert(tail.subrange(4, 8) == i32_bytes(entry.logical_rect.y));
    lemma_i32_field(bytes, 64, entry.logical_rect.y);
    assert(bytes.subrange(68, 72) == tail.subrange(8, 12));
    assert(tail.subrange(8, 12) == i32_bytes(entry.logical_rect.w));
    lemma_i32_field(bytes, 68, entry.logical_rect.w);
    assert(bytes.subrange(72, 76) == tail.subrange(12, 16));
    assert(tail.subrange(12, 16) == i32_bytes(entry.logical_rect.h));
    lemma_i32_field(bytes, 72, entry.logical_rect.h);
    assert(bytes.subrange(76, 80) == tail.subrange(16, 20));
    assert(tail.subrange(16, 20) == i32_bytes(entry.physical_size.w));
    lemma_i32_field(bytes, 76, entry.physical_size.w);
    assert(bytes.subrange(80, 84) == tail.subrange(20, 24));
    assert(tail.subrange(20, 24) == i32_bytes(entry.physical_size.h));
    lemma_i32_field(bytes, 80, entry.physical_size.h);
    assert(bytes.subrange(84, 88) == tail.subrange(24, 28));
    assert(tail.subrange(24, 28) == u32_bytes(m_index_mark(entry.m_index_valid)));
    lemma_u32_field(bytes, 84, m_index_mark(entry.m_index_valid));
    assert(bytes.subrange(88, 92) == tail.subrange(28, 32));
    assert(tail.subrange(28, 32) == i32_bytes(entry.m_index));
    lemma_i32_field(bytes, 88, entry.m_index);
}

/// Adds the 128 bytes of a directory entry.
pub fn write_entry(out: &mut Vec<u8>, entry: &SubBlockDirectoryEntry)
    ensures
        final(out)@ == old(out)@ + entry_bytes(*entry),
        final(out)@.len() == old(out)@.len() + 128,
{
    let schema: [u8; 4] = [68, 86, 0, 0];
    assert(schema@ =~= entry_schema());
    let mut record: Vec<u8> = Vec::new();
    put_slice(&mut record, schema.as_slice());
    put_i32(&mut record, entry.pixel_type);
    put_u64(&mut record, entry.file_position);
    put_i32(&mut record, entry.compression_mode_raw);
    put_u32(&mut record, entry.coordinate.dimensions_valid);
    assert(record@ =~= entry_head_bytes(*entry));
    let mut values: Vec<u8> = Vec::new();
    put_i32(&mut values, entry.coordinate.value[0]);
    put_i32(&mut values, entry.coordinate.value[1]);
    put_i32(&mut values, entry.coordinate.value[2]);
    put_i32(&mut values, entry.coordinate.value[3]);
    put_i32(&mut values, entry.coordinate.value[4]);
    put_i32(&mut values, entry.coordinate.value[5]);
    put_i32(&mut values, entry.coordinate.value[6]);
    put_i32(&mut values, entry.coordinate.value[7]);
    put_i32(&mut values, entry.coordinate.value[8]);
    assert(values@ =~= entry_values_bytes(entry.coordinate.value));
    let mut tail: Vec<u8> = Vec::new();
    put_i32(&mut tail, entry.logical_rect.x);
    put_i32(&mut tail, entry.logical_rect.y);
    put_i32(&mut tail, entry.logical_rect.w);
    put_i32(&mut tail, entry.logical_rect.h);
    put_i32(&mut tail, entry.physical_size.w);
    put_i32(&mut tail, entry.physical_size.h);
    put_u32(
        &mut tail,
        if entry.m_index_valid {
            1
        } else {
            0
        },
    );
    put_i32(&mut tail, entry.m_index);
    assert(tail@ =~= entry_tail_bytes(*entry));
    record.append(&mut values);
    record.append(&mut tail);
    put_zeros(&mut record, 36);
    assert(record@ =~= entry_bytes(*entry));
    proof {
        lemma_entry_round_trip(*entry);
    }
    out.append(&mut record);
}

/// The directory entry that stands in the 128 bytes from `pos` on.
pub fn read_entry(bytes: &[u8], pos: usize) -> (entry: Result<SubBlockDirectoryEntry, LibCZIApiError>)
    requires
        pos + 128 <= bytes@.len(),
    ensures
        entry == parse_entry(bytes@.subrange(pos as int, pos + 128)),
{
    let size: usize = bytes.len();
    let record = slice_subrange(bytes, pos, pos + 128);
    let schema: [u8; 4] = [68, 86, 0, 0];
    assert(schema@ =~= entry_schema());
    if !has_bytes_at(record, 0, schema.as_slice()) {
        return Err(LibCZIApiError::CorruptData);
    }
    let mark: u32 = get_u32(record, 84);
    if mark > 1 {
        return Err(LibCZIApiError::CorruptData);
    }
    let mut value: [i32; 9] = [0i32;9];
    value[0] = get_i32(record, 24);
    value[1] = get_i32(record, 28);
    value[2] = get_i32(record, 32);
    value[3] = get_i32(record, 36);
    value[4] = get_i32(record, 40);
    value[5] = get_i32(record, 44);
    value[6] = get_i32(record, 48);
    value[7] = get_i32(record, 52);
    value[8] = get_i32(record, 56);
    proof {
        lemma_values_at(record@, 24);
        assert(value =~= values_at(record@, 24));
    }
    Ok(
        SubBlockDirectoryEntry {
            coordinate: Coordinate { dimensions_valid: get_u32(record, 20), value },
            logical_rect: IntRect {
                x: get_i32(record, 60),
                y: get_i32(record, 64),
                w: get_i32(record, 68),
                h: get_i32(record, 72),
            },
            physical_size: IntSize { w: get_i32(record, 76), h: get_i32(record, 80) },
            pixel_type: get_i32(record, 4),
            compression_mode_raw: get_i32(record, 16),
            m_index_valid: mark == 1,
            m_index: get_i32(record, 88),
            file_position: get_u64(record, 8),
        },
    )
}

/// How many bytes stand before the three buffers in the payload of a
/// sub-block segment.
pub const SUB_BLOCK_HEAD_SIZE: usize = 256;

/// What a sub-block segment holds: the directory entry of the sub-block and
/// its three buffers.
pub struct SubBlockContent {
    pub entry: SubBlockDirectoryEntry,
    /// The metadata of the sub-block, as XML in UTF-8.
    pub metadata: Seq<u8>,
    /// The pixel data, which may be compressed.
    pub data: Seq<u8>,
    /// The attachment of the sub-block.
    pub attachment: Seq<u8>,
}

/// One tile of pixel data, as it was read from a container.
#[derive(Debug)]
pub struct SubBlock {
    entry: SubBlockDirectoryEntry,
    metadata: Vec<u8>,
    data: Vec<u8>,
    attachment: Vec<u8>,
}

/// The first 256 bytes of the payload of a sub-block segment: the sizes of
/// the three buffers, the directory entry, and zero bytes up to the full
/// size.
pub open spec fn sub_block_head_bytes(content: SubBlockContent) -> Seq<u8> {
    u32_bytes(content.metadata.len() as u32) + u32_bytes(content.attachment.len() as u32)
        + u64_bytes(content.data.len() as u64) + entry_bytes(content.entry) + zeros(112)
}

/// The payload of a sub-block segment: the head, the metadata, the pixel
/// data, and the attachment.
pub open spec fn sub_block_payload(content: SubBlockContent) -> Seq<u8> {
    sub_block_head_bytes(content) + content.metadata + content.data + content.attachment
}

/// Whether the buffers are of sizes that the head of a sub-block segment
/// can state.
pub open spec fn sub_block_sizes_fit(content: SubBlockContent) -> bool {
    &&& content.metadata.len() <= u32::MAX
    &&& content.attachment.len() <= u32::MAX
    &&& content.data.len() <= u64::MAX
}

/// What a payload says as a sub-block: `CorruptData` where it is shorter
/// than its head, where the sizes that the head states do not add up to the
/// size of the payload, or where the directory entry in the head is none.
pub open spec fn parse_sub_block(payload: Seq<u8>) -> Result<SubBlockContent, LibCZIApiError> {
    if payload.len() < 256 {
        Err(LibCZIApiError::CorruptData)
    } else {
        let metadata_size = u32_at(payload, 0) as int;
        let attachment_size = u32_at(payload, 4) as int;
        let data_size = u64_at(payload, 8) as int;
        if 256 + metadata_size + data_size + attachment_size != payload.len() {
            Err(LibCZIApiError::CorruptData)
        } else {
            match parse_entry(payload.subrange(16, 144)) {
                Err(e) => Err(e),
                Ok(entry) => Ok(
                    SubBlockContent {
                        entry,
                        metadata: payload.subrange(256, 256 + metadata_size),
                        data: payload.subrange(
                            256 + metadata_size,
                            256 + metadata_size + data_size,
                        ),
                        attachment: payload.subrange(
                            256 + metadata_size + data_size,
                            256 + metadata_size + data_size + attachment_size,
                        ),
                    },
                ),
            }
        }
    }
}

/// A sub-block whose buffers are of sizes that fit is read back from its
/// payload.
pub proof fn lemma_sub_block_round_trip(content: SubBlockContent)
    requires
        sub_block_sizes_fit(content),
    ensures
        sub_block_payload(content).len() == 256 + content.metadata.len() + content.data.len()
            + content.attachment.len(),
        parse_sub_block(sub_block_payload(content)) == Ok::<SubBlockContent, LibCZIApiError>(
            content,
        ),
{
    lemma_auto_spec_u32_to_from_le_bytes();
    lemma_auto_spec_u64_to_from_le_bytes();
    lemma_entry_round_trip(content.entry);
    let payload = sub_block_payload(content);
    let head = sub_block_head_bytes(content);
    assert(head.len() == 256);
    assert(payload.subrange(0, 256) == head);
    assert(payload.subrange(0, 4) == head.subrange(0, 4));
    assert(head.subrange(0, 4) == u32_bytes(content.metadata.len() as u32));
    lemma_u32_field(payload, 0, content.metadata.len() as u32);
    assert(payload.subrange(4, 8) == head.subrange(4, 8));
    assert(head.subrange(4, 8) == u32_bytes(content.attachment.len() as u32));
    lemma_u32_field(payload, 4, content.attachment.len() as u32);
    assert(payload.subrange(8, 16) == head.subrange(8, 16));
    assert(head.subrange(8, 16) == u64_bytes(content.data.len() as u64));
    lemma_u64_field(payload, 8, content.data.len() as u64);
    assert(payload.subrange(16, 144) == head.subrange(16, 144));
    assert(head.subrange(16, 144) == entry_bytes(content.entry));
    let m = content.metadata.len() as int;
    let d = content.data.len() as int;
    let a = content.attachment.len() as int;
    assert(payload.subrange(256, 256 + m) == content.metadata);
    assert(payload.subrange(256 + m, 256 + m + d) == content.data);
    assert(payload.subrange(256 + m + d, 256 + m + d + a) == content.attachment);
}

/// The payload of a sub-block segment.
pub fn write_sub_block_payload(
    entry: &SubBlockDirectoryEntry,
    metadata: &[u8],
    data: &[u8],
    attachment: &[u8],
) -> (payload: Vec<u8>)
    requires
        metadata@.len() <= u32::MAX,
        attachment@.len() <= u32::MAX,
    ensures
        payload@ == sub_block_payload(
            SubBlockContent {
                entry: *entry,
                metadata: metadata@,
                data: data@,
                attachment: attachment@,
            },
        ),
{
    let ghost content = SubBlockContent {
        entry: *entry,
        metadata: metadata@,
        data: data@,
        attachment: attachment@,
    };
    let mut payload: Vec<u8> = Vec::new();
    put_u32(&mut payload, metadata.len() as u32);
    put_u32(&mut payload, attachment.len() as u32);
    put_u64(&mut payload, data.len() as u64);
    write_entry(&mut payload, entry);
    put_zeros(&mut payload, 112);
    assert(payload@ =~= sub_block_head_bytes(content));
    put_slice(&mut payload, metadata);
    put_slice(&mut payload, data);
    put_slice(&mut payload, attachment);
    payload
}

/// The sub-block that a payload holds.
pub fn read_sub_block_payload(payload: &[u8]) -> (sub_block: Result<SubBlock, LibCZIApiError>)
    ensures
        match sub_block {
            Ok(found) => parse_sub_block(payload@) == Ok::<SubBlockContent, LibCZIApiError>(found@),
            Err(e) => parse_sub_block(payload@) == Err::<SubBlockContent, LibCZIApiError>(e),
        },
{
    let size: usize = payload.len();
    if size < 256 {
        return Err(LibCZIApiError::CorruptData);
    }
    let metadata_size: u32 = get_u32(payload, 0);
    let attachment_size: u32 = get_u32(payload, 4);
    let data_size: u64 = get_u64(payload, 8);
    let rest: u64 = (size - 256) as u64;
    if metadata_size as u64 > rest || attachment_size as u64 > rest - metadata_size as u64
        || data_size != rest - metadata_size as u64 - attachment_size as u64 {
        return Err(LibCZIApiError::CorruptData);
    }
    match read_entry(payload, 16) {
        Err(e) => Err(e),
        Ok(entry) => {
            let metadata_end: usize = 256 + metadata_size as usize;
            let data_end: usize = metadata_end + data_size as usize;
            let metadata = slice_to_vec(slice_subrange(payload, 256, metadata_end));
            let data = slice_to_vec(slice_subrange(payload, metadata_end, data_end));
            let attachment = slice_to_vec(slice_subrange(payload, data_end, size));
            Ok(SubBlock { entry, metadata, data, attachment })
        },
    }
}

/// What asking for the first `size` bytes of a buffer gives: the size of
/// the whole buffer, and as many of its first bytes as were asked for and
/// are there. `InvalidArgument` for a negative `size`, `UnspecifiedError`
/// where the size of the buffer is no 32-bit number.
pub open spec fn raw_data_spec(buffer: Seq<u8>, size: i32) -> Result<(i32, Seq<u8>), LibCZIApiError> {
    if size < 0 {
        Err(LibCZIApiError::InvalidArgument)
    } else if buffer.len() > i32::MAX {
        Err(LibCZIApiError::UnspecifiedError)
    } else if size < buffer.len() {
        Ok((buffer.len() as i32, buffer.subrange(0, size as int)))
    } else {
        Ok((buffer.len() as i32, buffer))
    }
}

/// The first `size` bytes of a buffer, with the size of the whole.
pub fn raw_data(buffer: &[u8], size: i32) -> (part: Result<(i32, Vec<u8>), LibCZIApiError>)
    ensures
        match part {
            Ok((whole, bytes)) => raw_data_spec(buffer@, size) == Ok::<
                (i32, Seq<u8>),
                LibCZIApiError,
            >((whole, bytes@)),
            Err(e) => raw_data_spec(buffer@, size) == Err::<(i32, Seq<u8>), LibCZIApiError>(e),
        },
{
    if size < 0 {
        return Err(LibCZIApiError::InvalidArgument);
    }
    let whole: usize = buffer.len();
    if whole > i32::MAX as usize {
        return Err(LibCZIApiError::UnspecifiedError);
    }
    if (size as usize) < whole {
        Ok((whole as i32, slice_to_vec(slice_subrange(buffer, 0, size as usize))))
    } else {
        let bytes = slice_to_vec(buffer);
        Ok((whole as i32, bytes))
    }
}

/// The pixels of a sub-block, without compression.
///
/// Data that is not compressed holds the pixels as they are. Data in the
/// first manner of Zstandard is a frame; data in the second manner is a
/// frame with a few bytes in front of it, which can say that the bytes of
/// the pixels were put apart. The pixels are the content of the frame, as
/// `frame_content` states it. `UnspecifiedError` for any other manner of
/// compression, and for data that is no frame; `CorruptData` for bytes that were put apart
/// and are of an odd number.
pub open spec fn pixels_of(content: SubBlockContent) -> Result<Seq<u8>, LibCZIApiError> {
    let mode = content.entry.compression_mode_raw;
    if mode == COMPRESSION_NONE {
        Ok(content.data)
    } else if mode == COMPRESSION_ZSTD0 {
        match frame_content(content.data) {
            Some(pixels) => Ok(pixels),
            None => Err(LibCZIApiError::UnspecifiedError),
        }
    } else if mode == COMPRESSION_ZSTD1 {
        match frame_start(content.data) {
            None => Err(LibCZIApiError::UnspecifiedError),
            Some((apart, start)) => match frame_content(
                content.data.subrange(start, content.data.len() as int),
            ) {
                None => Err(LibCZIApiError::UnspecifiedError),
                Some(pixels) => if !apart {
                    Ok(pixels)
                } else if pixels.len() % 2 == 0 {
                    Ok(put_together(pixels))
                } else {
                    Err(LibCZIApiError::CorruptData)
                },
            },
        }
    } else {
        Err(LibCZIApiError::UnspecifiedError)
    }
}

/// The form of the bitmap that holds `size` bytes of pixels of a
/// sub-block, and its stride: `CorruptData` where the pixel type of the
/// sub-block is not known, its stored size is negative or too large for a
/// stride, or the pixels are not exactly as many rows as the stored size
/// says.
pub open spec fn form_of(entry: SubBlockDirectoryEntry, size: int) -> Result<
    (BitmapInfo, u32),
    LibCZIApiError,
> {
    match PixelType::of_code(entry.pixel_type as int) {
        None => Err(LibCZIApiError::CorruptData),
        Some(pixel_type) => {
            let row = entry.physical_size.w * pixel_type.bytes_per_pixel_spec();
            if entry.physical_size.w < 0 || entry.physical_size.h < 0 || row > u32::MAX || size
                != row * entry.physical_size.h {
                Err(LibCZIApiError::CorruptData)
            } else {
                Ok(
                    (
                        BitmapInfo {
                            width: entry.physical_size.w as u32,
                            height: entry.physical_size.h as u32,
                            pixel_type: entry.pixel_type,
                        },
                        row as u32,
                    ),
                )
            }
        },
    }
}

/// What decoding a sub-block gives: the form of the bitmap and its stride.
/// The pixels of the bitmap are those that `pixels_of` gives. The error of
/// the pixels, if they have one, else that of the form.
pub open spec fn decode_spec(content: SubBlockContent) -> Result<(BitmapInfo, u32), LibCZIApiError> {
    match pixels_of(content) {
        Err(e) => Err(e),
        Ok(pixels) => form_of(content.entry, pixels.len() as int),
    }
}

/// A sub-block whose data is the frame that stores its pixels decodes to
/// the pixels.
pub proof fn lemma_stored_pixels_are_decoded(content: SubBlockContent, pixels: Seq<u8>)
    requires
        content.entry.compression_mode_raw == COMPRESSION_ZSTD0,
        content.data == stored_frame(pixels),
        pixels.len() <= u64::MAX,
    ensures
        pixels_of(content) == Ok::<Seq<u8>, LibCZIApiError>(pixels),
        decode_spec(content) == form_of(content.entry, pixels.len() as int),
{
    lemma_stored_frame_round_trip(pixels);
    lemma_stored_content_is_frame_content(stored_frame(pixels));
}

impl View for SubBlock {
    type V = SubBlockContent;

    closed spec fn view(&self) -> SubBlockContent {
        SubBlockContent {
            entry: self.entry,
            metadata: self.metadata@,
            data: self.data@,
            attachment: self.attachment@,
        }
    }
}

impl Clone for SubBlock {
    fn clone(&self) -> (copy: Self)
        ensures
            copy@ == self@,
    {
        SubBlock {
            entry: self.entry,
            metadata: self.metadata.clone(),
            data: self.data.clone(),
            attachment: self.attachment.clone(),
        }
    }
}

impl SubBlock {
    /// A sub-block of the given parts.
    pub fn from_parts(
        entry: SubBlockDirectoryEntry,
        metadata: Vec<u8>,
        data: Vec<u8>,
        attachment: Vec<u8>,
    ) -> (sub_block: Self)
        ensures
            sub_block@ == (SubBlockContent {
                entry,
                metadata: metadata@,
                data: data@,
                attachment: attachment@,
            }),
    {
        SubBlock { entry, metadata, data, attachment }
    }

    /// What is known of the sub-block without its data. The call always
    /// succeeds.
    pub fn get_info(&self) -> (info: Result<SubBlockInfo, LibCZIApiError>)
        ensures
            info == Ok::<SubBlockInfo, LibCZIApiError>(self@.entry.info_spec()),
    {
        Ok(self.entry.info())
    }

    /// The directory entry of the sub-block.
    pub fn get_entry(&self) -> (entry: SubBlockDirectoryEntry)
        ensures
            entry == self@.entry,
    {
        self.entry
    }

    /// The first `size` bytes of the pixel data or of the metadata, with the
    /// size of the whole.
    ///
    /// The first part of the result is the size of the whole buffer, the
    /// second holds its first `size` bytes, or all of them where it has
    /// fewer. Fails with `InvalidArgument` for a negative `size`, and with
    /// `UnspecifiedError` where the size of the buffer is no 32-bit number.
    pub fn get_raw_data(&self, tp: RawDataType, size: i32) -> (part: Result<
        (i32, Vec<u8>),
        LibCZIApiError,
    >)
        ensures
            match part {
                Ok((whole, bytes)) => raw_data_spec(
                    match tp {
                        RawDataType::Data => self@.data,
                        RawDataType::Metadata => self@.metadata,
                    },
                    size,
                ) == Ok::<(i32, Seq<u8>), LibCZIApiError>((whole, bytes@)),
                Err(e) => raw_data_spec(
                    match tp {
                        RawDataType::Data => self@.data,
                        RawDataType::Metadata => self@.metadata,
                    },
                    size,
                ) == Err::<(i32, Seq<u8>), LibCZIApiError>(e),
            },
    {
        match tp {
            RawDataType::Data => raw_data(self.data.as_slice(), size),
            RawDataType::Metadata => raw_data(self.metadata.as_slice(), size),
        }
    }

    /// The pixels of the sub-block, without compression.
    pub fn decoded_pixels(&self) -> (pixels: Result<Vec<u8>, LibCZIApiError>)
        ensures
            match pixels {
                Ok(found) => pixels_of(self@) == Ok::<Seq<u8>, LibCZIApiError>(found@),
                Err(e) => pixels_of(self@) == Err::<Seq<u8>, LibCZIApiError>(e),
            },
    {
        let mode: i32 = self.entry.compression_mode_raw;
        if mode == COMPRESSION_NONE {
            Ok(self.data.clone())
        } else if mode == COMPRESSION_ZSTD0 {
            match read_frame(self.data.as_slice()) {
                Some(pixels) => Ok(pixels),
                None => Err(LibCZIApiError::UnspecifiedError),
            }
        } else if mode == COMPRESSION_ZSTD1 {
            let (apart, start) = match read_frame_start(self.data.as_slice()) {
                Some(found) => found,
                None => {
                    return Err(LibCZIApiError::UnspecifiedError);
                },
            };
            let frame = slice_subrange(self.data.as_slice(), start, self.data.len());
            match read_frame(frame) {
                None => Err(LibCZIApiError::UnspecifiedError),
                Some(pixels) => if !apart {
                    Ok(pixels)
                } else if pixels.len() % 2 == 0 {
                    Ok(put_bytes_together(pixels.as_slice()))
                } else {
                    Err(LibCZIApiError::CorruptData)
                },
            }
        } else {
            Err(LibCZIApiError::UnspecifiedError)
        }
    }

    /// The form of the bitmap that holds `size` bytes of pixels of the
    /// sub-block, and its stride.
    fn form(&self, size: usize) -> (form: Result<(BitmapInfo, u32), LibCZIApiError>)
        ensures
            form == form_of(self@.entry, size as int),
            form matches Ok((info, stride)) ==> layout_is_valid(info, stride, size as int)
                && stride == crate::bitmap::row_bytes(info),
    {
        match PixelType::try_from(self.entry.pixel_type) {
            Err(_) => Err(LibCZIApiError::CorruptData),
            Ok(pixel_type) => {
                if self.entry.physical_size.w < 0 || self.entry.physical_size.h < 0 {
                    return Err(LibCZIApiError::CorruptData);
                }
                let width: u32 = self.entry.physical_size.w as u32;
                let height: u32 = self.entry.physical_size.h as u32;
                let per_pixel: u64 = pixel_type.bytes_per_pixel() as u64;
                assert(width as u64 * per_pixel <= 0x7fff_ffff * 24) by (nonlinear_arith)
                    requires
                        width <= 0x7fff_ffff,
                        per_pixel <= 24,
                ;
                let row: u64 = width as u64 * per_pixel;
                if row > u32::MAX as u64 {
                    return Err(LibCZIApiError::CorruptData);
                }
                assert(row * height as u64 <= 0xffff_ffff * 0x7fff_ffff) by (nonlinear_arith)
                    requires
                        row <= 0xffff_ffff,
                        height <= 0x7fff_ffff,
                ;
                if size as u64 != row * height as u64 {
                    return Err(LibCZIApiError::CorruptData);
                }
                Ok((BitmapInfo { width, height, pixel_type: self.entry.pixel_type }, row as u32))
            },
        }
    }

    /// What decoding the sub-block gives: the form of the bitmap, its
    /// stride, and its pixels.
    pub fn decode(&self) -> (decoded: Result<(BitmapInfo, u32, Vec<u8>), LibCZIApiError>)
        ensures
            match decoded {
                Ok((info, stride, pixels)) => {
                    &&& decode_spec(self@) == Ok::<(BitmapInfo, u32), LibCZIApiError>(
                        (info, stride),
                    )
                    &&& pixels_of(self@) == Ok::<Seq<u8>, LibCZIApiError>(pixels@)
                    &&& layout_is_valid(info, stride, pixels@.len() as int)
                    &&& stride == crate::bitmap::row_bytes(info)
                },
                Err(e) => decode_spec(self@) == Err::<(BitmapInfo, u32), LibCZIApiError>(e),
            },
    {
        let pixels = match self.decoded_pixels() {
            Ok(found) => found,
            Err(e) => {
                return Err(e);
            },
        };
        match self.form(pixels.len()) {
            Ok((info, stride)) => Ok((info, stride, pixels)),
            Err(e) => Err(e),
        }
    }

    /// The form of the bitmap that decoding the sub-block gives, and its
    /// stride.
    pub fn decoded_form(&self) -> (form: Result<(BitmapInfo, u32), LibCZIApiError>)
        ensures
            form == decode_spec(self@),
    {
        match self.decode() {
            Ok((info, stride, _)) => Ok((info, stride)),
            Err(e) => Err(e),
        }
    }

    /// The pixels of the sub-block as a bitmap, with no lock held and rows
    /// that follow each other without padding.
    pub fn create_bitmap(&self) -> (bitmap: Result<Bitmap, LibCZIApiError>)
        ensures
            match bitmap {
                Ok(made) => {
                    &&& decode_spec(self@) == Ok::<(BitmapInfo, u32), LibCZIApiError>(
                        (made.info_spec(), made.stride_spec()),
                    )
                    &&& pixels_of(self@) == Ok::<Seq<u8>, LibCZIApiError>(made.pixels())
                    &&& made.wf()
                    &&& made.locks_spec() == 0
                },
                Err(e) => decode_spec(self@) == Err::<(BitmapInfo, u32), LibCZIApiError>(e),
            },
    {
        match self.decode() {
            Err(e) => Err(e),
            Ok((info, stride, pixels)) => {
                match PixelType::try_from(info.pixel_type) {
                    Err(_) => Err(LibCZIApiError::CorruptData),
                    Ok(pixel_type) => {
                        proof {
                            crate::pixel::lemma_pixel_type_code_round_trip(
                                pixel_type,
                                info.pixel_type as int,
                            );
                        }
                        match Bitmap::create(info.width, info.height, pixel_type, stride, pixels) {
                            Ok(made) => Ok(made),
                            Err(e) => Err(e),
                        }
                    },
                }
            },
        }
    }

    /// Hands the pixel data out.
    pub fn into_data(self) -> (data: Vec<u8>)
        ensures
            data@ == self@.data,
    {
        self.data
    }

    /// Gives the sub-block up. The call always succeeds.
    pub fn release(self) -> (done: Result<(), LibCZIApiError>)
        ensures
            done is Ok,
    {
        Ok(())
    }
}

impl TryFrom<&SubBlock> for Bitmap {
    type Error = LibCZIApiError;

    /// The pixels of the sub-block as a bitmap, as `create_bitmap` gives
    /// them.
    fn try_from(sub_block: &SubBlock) -> (bitmap: Result<Self, LibCZIApiError>)
        ensures
            match bitmap {
                Ok(made) => {
                    &&& decode_spec(sub_block@) == Ok::<(BitmapInfo, u32), LibCZIApiError>(
                        (made.info_spec(), made.stride_spec()),
                    )
                    &&& pixels_of(sub_block@) == Ok::<Seq<u8>, LibCZIApiError>(made.pixels())
                    &&& made.wf()
                    &&& made.locks_spec() == 0
                },
                Err(e) => decode_spec(sub_block@) == Err::<(BitmapInfo, u32), LibCZIApiError>(e),
            },
    {
        sub_block.create_bitmap()
    }
}

impl TryFromSpecImpl<&SubBlock> for Bitmap {
    /// What the conversion gives is stated where it is defined, in terms of
    /// what the bitmap holds; no bitmap is named here.
    open spec fn obeys_try_from_spec() -> bool {
        false
    }

    open spec fn try_from_spec(sub_block: &SubBlock) -> Result<Self, LibCZIApiError> {
        vstd::pervasive::arbitrary()
    }
}

} // verus!
