//! An engine for CZI documents: tiled microscopy images with many
//! dimensions and a pyramid of resolutions, kept in a container of segments.
//!
//! The engine reads and writes the container in memory. A [`CziWriter`]
//! lays a document out in an [`OutputStream`]; a [`CziReader`] opens the
//! bytes of a document, hands out its sub-blocks, attachments and metadata,
//! and draws the figures of the document from its sub-block directory; a
//! [`SingleChannelScalingTileAccessor`] puts the sub-blocks of a plane
//! together into one picture. Every operation states what it returns and
//! what it changes, and is proved to do so and never to panic.

pub mod accessor;
pub mod attachment;
pub mod bitmap;
pub mod blocks;
pub mod composition;
pub mod container;
pub mod coordinate;
pub mod dimension;
pub mod directory;
pub mod document;
pub mod entropy;
pub mod error;
pub mod geometry;
pub mod handle;
pub mod header;
pub mod huffman;
pub mod json;
pub mod literals;
pub mod metadata;
pub mod pixel;
pub mod pyramid;
pub mod reader;
pub mod segment;
pub mod sequences;
pub mod statistics;
pub mod stream;
pub mod subblock;
pub mod text;
pub mod tiles;
pub mod version;
pub mod wire;
pub mod writer;
pub mod xml;
pub mod zstd;
pub mod zoom;

pub use crate::accessor::{
    AccessorOptions, ChannelDisplaySettings, CompositionChannelInfo, DisplaySettings,
};
pub use crate::attachment::{AddAttachmentInfo, Attachment, AttachmentEntry, AttachmentInfo};
pub use crate::bitmap::{Bitmap, BitmapInfo, BitmapLockInfo, LockedBitmap};
pub use crate::composition::compositor_do_multi_channel_composition;
pub use crate::coordinate::{Coordinate, DimBounds, Interval};
pub use crate::dimension::Dimension;
pub use crate::directory::SubBlockDirectory;
pub use crate::document::{Axis, ChannelDescription};
pub use crate::error::{CziError, LibCZIApiError};
pub use crate::geometry::{IntRect, IntSize};
pub use crate::handle::{Handle, HandleTable};
pub use crate::header::FileHeaderInfo;
pub use crate::metadata::{
    CziDocumentInfo, MetadataAsXml, MetadataSegment, ScalingInfo, WriteMetadataInfo,
};
pub use crate::pixel::{PixelType, RawDataType};
pub use crate::pyramid::PyramidLayerStatistics;
pub use crate::reader::CziReader;
pub use crate::segment::{SegmentHeader, SegmentKind};
pub use crate::statistics::{BoundingBoxes, SubBlockStatistics, SubBlockStatisticsEx};
pub use crate::stream::{
    allocate_memory, free, ExternalInputStreamStruct, ExternalOutputStreamStruct, ExternalStreamErrorInfo, InputStream,
    InputStreamClassInfo, MemoryAllocation, OutputStream, ReaderOpenInfo,
};
pub use crate::subblock::{AddSubBlockInfo, SubBlock, SubBlockDirectoryEntry, SubBlockInfo};
pub use crate::tiles::SingleChannelScalingTileAccessor;
pub use crate::version::{LibCZIBuildInformation, LibCZIVersionInfo};
pub use crate::writer::{CziWriter, WriterOptions, WriterParameters, WriterState};
