//! Pixel types and the kinds of raw data that a sub-block carries.

use crate::error::CziError;
use vstd::prelude::*;
use vstd::std_specs::convert::{FromSpecImpl, TryFromSpecImpl};

verus! {

/// What a sub-block's raw data is asked for.
#[derive(Clone, Copy, Debug, PartialEq, Eq, Structural)]
pub enum RawDataType {
    /// The pixel data, which may be compressed.
    Data,
    /// The sub-block's own metadata, as XML in UTF-8.
    Metadata,
}

impl RawDataType {
    /// The number that stands for this kind: 0 for the pixel data, 1 for the metadata.
    pub open spec fn code_spec(self) -> int {
        match self {
            RawDataType::Data => 0,
            RawDataType::Metadata => 1,
        }
    }

    /// The number that stands for this kind.
    pub fn code(&self) -> (code: i32)
        ensures
            code == self.code_spec(),
    {
        match self {
            RawDataType::Data => 0,
            RawDataType::Metadata => 1,
        }
    }
}

impl TryFrom<i32> for RawDataType {
    type Error = CziError;

    fn try_from(raw_data_type: i32) -> (res: Result<Self, CziError>) {
        match raw_data_type {
            0 => Ok(RawDataType::Data),
            1 => Ok(RawDataType::Metadata),
            _ => Err(CziError::UnknownRawDataType(raw_data_type)),
        }
    }
}

impl TryFromSpecImpl<i32> for RawDataType {
    open spec fn obeys_try_from_spec() -> bool {
        true
    }

    open spec fn try_from_spec(raw_data_type: i32) -> Result<Self, CziError> {
        if raw_data_type == 0 {
            Ok(RawDataType::Data)
        } else if raw_data_type == 1 {
            Ok(RawDataType::Metadata)
        } else {
            Err(CziError::UnknownRawDataType(raw_data_type))
        }
    }
}

/// The layout of one pixel.
#[derive(Clone, Copy, Debug, PartialEq, Eq, Structural)]
pub enum PixelType {
    /// Grayscale, 8 bits unsigned.
    Gray8,
    /// Grayscale, 16 bits unsigned.
    Gray16,
    /// Grayscale, one 32-bit float.
    Gray32Float,
    /// Blue, green, red, 8 bits each.
    Bgr24,
    /// Blue, green, red, 16 bits each.
    Bgr48,
    /// Blue, green, red, a 32-bit float each.
    Bgr96Float,
    /// Blue, green, red, alpha, 8 bits each.
    Bgra32,
    /// One complex number of two 32-bit floats.
    Gray64ComplexFloat,
    /// Blue, green, red, each a complex number of two 32-bit floats.
    Bgr192ComplexFloat,
    /// Grayscale, 32 bits signed.
    Gray32,
    /// Grayscale, one 64-bit float.
    Gray64Float,
}

impl PixelType {
    /// The number that stands for this pixel type in a container.
    pub open spec fn code_spec(self) -> int {
        match self {
            PixelType::Gray8 => 0,
            PixelType::Gray16 => 1,
            PixelType::Gray32Float => 2,
            PixelType::Bgr24 => 3,
            PixelType::Bgr48 => 4,
            PixelType::Bgr96Float => 8,
            PixelType::Bgra32 => 9,
            PixelType::Gray64ComplexFloat => 10,
            PixelType::Bgr192ComplexFloat => 11,
            PixelType::Gray32 => 12,
            PixelType::Gray64Float => 13,
        }
    }

    /// The pixel type that a number stands for, if it stands for one.
    pub open spec fn of_code(code: int) -> Option<PixelType> {
        if code == 0 {
            Some(PixelType::Gray8)
        } else if code == 1 {
            Some(PixelType::Gray16)
        } else if code == 2 {
            Some(PixelType::Gray32Float)
        } else if code == 3 {
            Some(PixelType::Bgr24)
        } else if code == 4 {
            Some(PixelType::Bgr48)
        } else if code == 8 {
            Some(PixelType::Bgr96Float)
        } else if code == 9 {
            Some(PixelType::Bgra32)
        } else if code == 10 {
            Some(PixelType::Gray64ComplexFloat)
        } else if code == 11 {
            Some(PixelType::Bgr192ComplexFloat)
        } else if code == 12 {
            Some(PixelType::Gray32)
        } else if code == 13 {
            Some(PixelType::Gray64Float)
        } else {
            None
        }
    }

    /// How many bytes one pixel takes: the number of bits in the type's name,
    /// divided by eight.
    pub open spec fn bytes_per_pixel_spec(self) -> int {
        match self {
            PixelType::Gray8 => 1,
            PixelType::Gray16 => 2,
            PixelType::Gray32Float => 4,
            PixelType::Bgr24 => 3,
            PixelType::Bgr48 => 6,
            PixelType::Bgr96Float => 12,
            PixelType::Bgra32 => 4,
            PixelType::Gray64ComplexFloat => 8,
            PixelType::Bgr192ComplexFloat => 24,
            PixelType::Gray32 => 4,
            PixelType::Gray64Float => 8,
        }
    }

    /// The number that stands for this pixel type.
    pub fn code(&self) -> (code: i32)
        ensures
            code == self.code_spec(),
    {
        match self {
            PixelType::Gray8 => 0,
            PixelType::Gray16 => 1,
            PixelType::Gray32Float => 2,
            PixelType::Bgr24 => 3,
            PixelType::Bgr48 => 4,
            PixelType::Bgr96Float => 8,
            PixelType::Bgra32 => 9,
            PixelType::Gray64ComplexFloat => 10,
            PixelType::Bgr192ComplexFloat => 11,
            PixelType::Gray32 => 12,
            PixelType::Gray64Float => 13,
        }
    }

    /// How many bytes one pixel takes.
    pub fn bytes_per_pixel(&self) -> (bytes: u32)
        ensures
            bytes == self.bytes_per_pixel_spec(),
            1 <= bytes <= 24,
    {
        match self {
            PixelType::Gray8 => 1,
            PixelType::Gray16 => 2,
            PixelType::Gray32Float => 4,
            PixelType::Bgr24 => 3,
            PixelType::Bgr48 => 6,
            PixelType::Bgr96Float => 12,
            PixelType::Bgra32 => 4,
            PixelType::Gray64ComplexFloat => 8,
            PixelType::Bgr192ComplexFloat => 24,
            PixelType::Gray32 => 4,
            PixelType::Gray64Float => 8,
        }
    }
}

impl TryFrom<i32> for PixelType {
    type Error = CziError;

    fn try_from(pixel_type: i32) -> (res: Result<Self, CziError>) {
        match pixel_type {
            0 => Ok(PixelType::Gray8),
            1 => Ok(PixelType::Gray16),
            2 => Ok(PixelType::Gray32Float),
            3 => Ok(PixelType::Bgr24),
            4 => Ok(PixelType::Bgr48),
            8 => Ok(PixelType::Bgr96Float),
            9 => Ok(PixelType::Bgra32),
            10 => Ok(PixelType::Gray64ComplexFloat),
            11 => Ok(PixelType::Bgr192ComplexFloat),
            12 => Ok(PixelType::Gray32),
            13 => Ok(PixelType::Gray64Float),
            _ => Err(CziError::UnknownPixelType(pixel_type)),
        }
    }
}

impl TryFromSpecImpl<i32> for PixelType {
    open spec fn obeys_try_from_spec() -> bool {
        true
    }

    open spec fn try_from_spec(pixel_type: i32) -> Result<Self, CziError> {
        match PixelType::of_code(pixel_type as int) {
            Some(found) => Ok(found),
            None => Err(CziError::UnknownPixelType(pixel_type)),
        }
    }
}

impl From<PixelType> for i32 {
    fn from(pixel_type: PixelType) -> (code: i32) {
        pixel_type.code()
    }
}

impl FromSpecImpl<PixelType> for i32 {
    open spec fn obeys_from_spec() -> bool {
        true
    }

    open spec fn from_spec(pixel_type: PixelType) -> i32 {
        pixel_type.code_spec() as i32
    }
}

/// A pixel type is found again by its number, and a number by its pixel type.
pub proof fn lemma_pixel_type_code_round_trip(pixel_type: PixelType, code: int)
    ensures
        PixelType::of_code(pixel_type.code_spec()) == Some(pixel_type),
        PixelType::of_code(code) matches Some(found) ==> found.code_spec() == code,
{
}

} // verus!
