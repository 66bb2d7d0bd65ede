use libczi::attachment::AddAttachmentInfo;
use libczi::coordinate::Coordinate;
use libczi::geometry::IntRect;
use libczi::metadata::WriteMetadataInfo;
use libczi::pixel::{PixelType, RawDataType};
use libczi::reader::CziReader;
use libczi::stream::{InputStream, OutputStream, ReaderOpenInfo};
use libczi::subblock::AddSubBlockInfo;
use libczi::writer::{CziWriter, WriterOptions, WriterParameters, WriterState};
use libczi::LibCZIApiError;

fn parameters() -> WriterParameters {
    WriterParameters {
        file_guid: [
            0x12, 0x3e, 0x45, 0x67, 0xe8, 0x9b, 0x12, 0xd3, 0xa4, 0x56, 0x42, 0x66, 0x14, 0x17,
            0x40, 0x00,
        ],
        reserved_size_attachments_directory: 0,
        reserved_size_metadata_segment: 0,
        minimum_m_index: 0,
        maximum_m_index: -1,
    }
}

fn bound(allow_duplicates: bool, parameters: &WriterParameters) -> CziWriter {
    let mut writer = CziWriter::create_with_options(&WriterOptions {
        allow_duplicate_subblocks: allow_duplicates,
    })
    .unwrap();
    assert_eq!(writer.state(), WriterState::Created);
    assert_eq!(writer.init_with_parameters(OutputStream::new(), parameters), Ok(()));
    assert_eq!(writer.state(), WriterState::Initialized);
    writer
}

fn tile(scene: i32, x: i32, y: i32, m: i32, pixels: &[u8]) -> AddSubBlockInfo {
    let coordinate = Coordinate::new(0b1_0010, [0, scene, 0, 0, 0, 0, 0, 0, 0]);
    AddSubBlockInfo::new(
        coordinate,
        1,
        m,
        x,
        y,
        4,
        2,
        4,
        2,
        PixelType::Gray8,
        0,
        pixels.len() as u32,
        pixels,
        4,
        5,
        b"<xml>",
        0,
        &[],
    )
}

fn reopen(writer: CziWriter) -> CziReader {
    let bytes = writer.release().unwrap().into_bytes();
    let stream = InputStream::from_bytes(bytes);
    let mut reader = CziReader::create().unwrap();
    assert_eq!(reader.open(ReaderOpenInfo::new(&stream)), Ok(()));
    reader
}

#[test]
fn a_sub_block_that_was_written_is_read_back() {
    let mut writer = bound(true, &parameters());
    let first = [1, 2, 3, 4, 5, 6, 7, 8];
    let second = [8, 7, 6, 5, 4, 3, 2, 1];
    assert_eq!(writer.add_sub_block(tile(0, 0, 0, 0, &first)), Ok(()));
    assert_eq!(writer.add_sub_block(tile(1, 4, 0, 1, &second)), Ok(()));
    assert_eq!(writer.sub_block_count(), 2);
    assert_eq!(writer.close(), Ok(()));
    assert_eq!(writer.state(), WriterState::Finalized);
    let reader = reopen(writer);
    for (index, pixels, x) in [(0, first, 0), (1, second, 4)] {
        let sub_block = reader.read_sub_block(index).unwrap().unwrap();
        assert_eq!(
            sub_block.get_raw_data(RawDataType::Data, 100),
            Ok((8, pixels.to_vec()))
        );
        assert_eq!(
            sub_block.get_raw_data(RawDataType::Metadata, 100),
            Ok((5, b"<xml>".to_vec()))
        );
        let info = sub_block.get_info().unwrap();
        assert_eq!(info.get_logical_rect(), IntRect::new(x, 0, 4, 2));
        assert_eq!(info.get_m_index(), index);
        assert_eq!(info.get_pixel_type(), Ok(PixelType::Gray8));
        let bitmap = sub_block.create_bitmap().unwrap();
        let converted = libczi::bitmap::Bitmap::try_from(&sub_block).unwrap();
        assert_eq!(converted.get_info(), bitmap.get_info());
        assert_eq!(
            converted.lock().unwrap().lock_info.get_data_roi(),
            pixels.to_vec()
        );
        let locked = bitmap.lock().unwrap();
        assert_eq!(locked.lock_info.get_data_roi(), pixels.to_vec());
        assert_eq!(locked.get_info().unwrap().get_width(), 4);
        assert_eq!(locked.get_info().unwrap().get_height(), 2);
    }
}

#[test]
fn rows_with_padding_are_stored_without_it() {
    let mut writer = bound(true, &parameters());
    let mut info = tile(0, 0, 0, 0, &[]);
    info.set_stride(6);
    info.set_data(&[1, 2, 3, 4, 0xaa, 0xbb, 5, 6, 7, 8, 0xcc, 0xdd]);
    assert_eq!(writer.add_sub_block(info), Ok(()));
    assert_eq!(writer.close(), Ok(()));
    let reader = reopen(writer);
    let sub_block = reader.read_sub_block(0).unwrap().unwrap();
    assert_eq!(
        sub_block.get_raw_data(RawDataType::Data, 64),
        Ok((8, vec![1, 2, 3, 4, 5, 6, 7, 8]))
    );
    let bitmap = sub_block.create_bitmap().unwrap();
    assert_eq!(bitmap.get_stride(), 4);
}

#[test]
fn compressed_data_comes_back_as_it_was_given() {
    let mut writer = bound(true, &parameters());
    let mut info = tile(0, 0, 0, 0, &[]);
    info.set_compression_mode_raw(6);
    info.set_data(&[0xde, 0xad, 0xbe, 0xef, 0x01]);
    assert_eq!(writer.add_sub_block(info), Ok(()));
    assert_eq!(writer.close(), Ok(()));
    let reader = reopen(writer);
    let sub_block = reader.read_sub_block(0).unwrap().unwrap();
    assert_eq!(
        sub_block.get_raw_data(RawDataType::Data, 64),
        Ok((5, vec![0xde, 0xad, 0xbe, 0xef, 0x01]))
    );
    assert_eq!(sub_block.get_info().unwrap().get_compression_mode_raw(), 6);
    assert_eq!(
        sub_block.create_bitmap().err(),
        Some(LibCZIApiError::UnspecifiedError)
    );
}

#[test]
fn raw_data_is_cut_to_the_size_that_was_asked_for() {
    let mut writer = bound(true, &parameters());
    assert_eq!(
        writer.add_sub_block(tile(0, 0, 0, 0, &[1, 2, 3, 4, 5, 6, 7, 8])),
        Ok(())
    );
    assert_eq!(writer.close(), Ok(()));
    let reader = reopen(writer);
    let sub_block = reader.read_sub_block(0).unwrap().unwrap();
    assert_eq!(
        sub_block.get_raw_data(RawDataType::Data, 3),
        Ok((8, vec![1, 2, 3]))
    );
    assert_eq!(sub_block.get_raw_data(RawDataType::Data, 0), Ok((8, vec![])));
    assert_eq!(
        sub_block.get_raw_data(RawDataType::Data, -1),
        Err(LibCZIApiError::InvalidArgument)
    );
}

#[test]
fn test_duplicate_sub_block_is_refused() {
    let mut writer = bound(false, &parameters());
    let pixels = [0; 8];
    assert_eq!(writer.add_sub_block(tile(2, 10, 20, 5, &pixels)), Ok(()));
    let size = writer.stream().size();
    assert_eq!(
        writer.add_sub_block(tile(2, 10, 20, 5, &pixels)),
        Err(LibCZIApiError::InvalidArgument)
    );
    assert_eq!(writer.sub_block_count(), 1);
    assert_eq!(writer.stream().size(), size);
    assert_eq!(writer.add_sub_block(tile(2, 10, 20, 6, &pixels)), Ok(()));
    assert_eq!(writer.add_sub_block(tile(3, 10, 20, 5, &pixels)), Ok(()));
    assert_eq!(writer.add_sub_block(tile(2, 11, 20, 5, &pixels)), Ok(()));
    assert_eq!(writer.sub_block_count(), 4);
}

#[test]
fn duplicates_are_taken_where_they_are_allowed() {
    let mut writer = bound(true, &parameters());
    let pixels = [0; 8];
    assert_eq!(writer.add_sub_block(tile(2, 10, 20, 5, &pixels)), Ok(()));
    assert_eq!(writer.add_sub_block(tile(2, 10, 20, 5, &pixels)), Ok(()));
    assert_eq!(writer.sub_block_count(), 2);
}

#[test]
fn a_sub_block_that_is_not_valid_is_refused() {
    let mut writer = bound(true, &parameters());
    let pixels = [0; 8];
    let mut short = tile(0, 0, 0, 0, &pixels);
    short.set_data(&[0; 7]);
    assert_eq!(writer.add_sub_block(short), Err(LibCZIApiError::InvalidArgument));
    let mut narrow = tile(0, 0, 0, 0, &pixels);
    narrow.set_stride(3);
    assert_eq!(writer.add_sub_block(narrow), Err(LibCZIApiError::InvalidArgument));
    let mut stated = tile(0, 0, 0, 0, &pixels);
    stated.set_size_data(7);
    assert_eq!(writer.add_sub_block(stated), Err(LibCZIApiError::InvalidArgument));
    let mut unknown = tile(0, 0, 0, 0, &pixels);
    unknown.pixel_type = 99;
    assert_eq!(writer.add_sub_block(unknown), Err(LibCZIApiError::InvalidArgument));
    let mut negative = tile(0, 0, 0, 0, &pixels);
    negative.set_logical_width(-4);
    assert_eq!(writer.add_sub_block(negative), Err(LibCZIApiError::InvalidArgument));
    let mut dimension = tile(0, 0, 0, 0, &pixels);
    dimension.set_coordinate(Coordinate::new(0x200, [0; 9]));
    assert_eq!(writer.add_sub_block(dimension), Err(LibCZIApiError::InvalidArgument));
    assert_eq!(writer.sub_block_count(), 0);
}

#[test]
fn an_m_index_outside_the_bounds_is_refused() {
    let mut limits = parameters();
    limits.minimum_m_index = 0;
    limits.maximum_m_index = 100;
    let mut writer = bound(true, &limits);
    let pixels = [0; 8];
    assert_eq!(writer.add_sub_block(tile(0, 0, 0, 0, &pixels)), Ok(()));
    assert_eq!(writer.add_sub_block(tile(0, 0, 0, 100, &pixels)), Ok(()));
    assert_eq!(
        writer.add_sub_block(tile(0, 0, 0, 101, &pixels)),
        Err(LibCZIApiError::InvalidArgument)
    );
    assert_eq!(
        writer.add_sub_block(tile(0, 0, 0, -1, &pixels)),
        Err(LibCZIApiError::InvalidArgument)
    );
    let mut unmarked = tile(0, 0, 0, 500, &pixels);
    unmarked.set_m_index_valid(0);
    assert_eq!(writer.add_sub_block(unmarked), Ok(()));
}

#[test]
fn a_writer_takes_sub_blocks_only_while_it_is_bound_and_open() {
    let pixels = [0; 8];
    let mut writer = CziWriter::create_with_options(&WriterOptions { allow_duplicate_subblocks: true }).unwrap();
    assert_eq!(
        writer.add_sub_block(tile(0, 0, 0, 0, &pixels)),
        Err(LibCZIApiError::InvalidArgument)
    );
    assert_eq!(writer.close(), Err(LibCZIApiError::InvalidArgument));
    assert_eq!(
        writer.write_metadata(WriteMetadataInfo::new(1, b"x")),
        Err(LibCZIApiError::InvalidArgument)
    );
    let mut used = OutputStream::new();
    assert_eq!(used.write(0, &[1]), Ok(()));
    assert_eq!(writer.init_with_parameters(used, &parameters()), Err(LibCZIApiError::InvalidArgument));
    assert_eq!(writer.init_with_parameters(OutputStream::new(), &parameters()), Ok(()));
    assert_eq!(
        writer.init_with_parameters(OutputStream::new(), &parameters()),
        Err(LibCZIApiError::InvalidArgument)
    );
    assert_eq!(writer.add_sub_block(tile(0, 0, 0, 0, &pixels)), Ok(()));
    assert_eq!(writer.close(), Ok(()));
    assert_eq!(
        writer.add_sub_block(tile(0, 0, 0, 1, &pixels)),
        Err(LibCZIApiError::InvalidArgument)
    );
    assert_eq!(
        writer.add_attachement(AddAttachmentInfo::new([0; 16], [0; 8], [0; 80], 0, &[])),
        Err(LibCZIApiError::InvalidArgument)
    );
    assert_eq!(writer.close(), Err(LibCZIApiError::InvalidArgument));
    assert_eq!(writer.sub_block_count(), 1);
}

#[test]
fn a_stream_that_was_never_closed_has_no_directory() {
    let mut writer = bound(true, &parameters());
    assert_eq!(writer.add_sub_block(tile(0, 0, 0, 0, &[0; 8])), Ok(()));
    let bytes = writer.release().unwrap().into_bytes();
    let mut reader = CziReader::create().unwrap();
    let stream = InputStream::from_bytes(bytes);
    assert_eq!(
        reader.open(ReaderOpenInfo::new(&stream)),
        Err(LibCZIApiError::CorruptData)
    );
    assert_eq!(
        reader.get_file_header_info().err(),
        Some(LibCZIApiError::InvalidArgument)
    );
}

#[test]
fn a_reader_reports_what_the_file_header_says() {
    let mut writer = bound(true, &parameters());
    assert_eq!(writer.close(), Ok(()));
    let reader = reopen(writer);
    let header = reader.get_file_header_info().unwrap();
    assert_eq!(header.get_guid(), parameters().file_guid);
    assert_eq!(header.get_major_version(), 1);
    assert_eq!(header.get_minor_version(), 0);
    assert_eq!(reader.get_statistics_simple().unwrap().get_sub_block_count(), 0);
    assert_eq!(reader.get_attachment_count(), Ok(0));
    assert_eq!(
        reader.get_metadata_segment().err(),
        Some(LibCZIApiError::InvalidArgument)
    );
    assert_eq!(
        reader.read_sub_block(0).err(),
        Some(LibCZIApiError::IndexOutOfRange)
    );
    assert!(reader.read_attachment(0).unwrap().is_none());
    assert_eq!(reader.release(), Ok(()));
}

#[test]
fn the_figures_of_a_document_that_was_written() {
    let mut writer = bound(true, &parameters());
    for i in 0..100 {
        let scene = [2, 0, 1][(i % 3) as usize];
        assert_eq!(
            writer.add_sub_block(tile(scene, 4 * i, 2 * scene, i, &[i as u8; 8])),
            Ok(())
        );
    }
    assert_eq!(writer.close(), Ok(()));
    let reader = reopen(writer);
    let (statistics, available) = reader.get_statistics_ex(1).unwrap();
    assert_eq!(available, 3);
    assert_eq!(statistics.get_number_of_per_scenes_bounding_boxes(), 1);
    assert_eq!(statistics.per_scenes_bounding_boxes.len(), 1);
    assert_eq!(statistics.per_scenes_bounding_boxes[0].get_scene_index(), 0);
    assert_eq!(
        statistics.per_scenes_bounding_boxes[0].get_bounding_box(),
        IntRect::new(4, 0, 388, 2)
    );
    let simple = reader.get_statistics_simple().unwrap();
    assert_eq!(simple.get_sub_block_count(), 100);
    assert_eq!(simple.get_min_m_index(), 0);
    assert_eq!(simple.get_max_m_index(), 99);
    assert_eq!(simple.get_bounding_box(), IntRect::new(0, 0, 400, 6));
    let (none, count) = reader.get_statistics_ex(0).unwrap();
    assert_eq!(count, 3);
    assert!(none.per_scenes_bounding_boxes.is_empty());
    assert_eq!(
        reader.get_statistics_ex(-1).err(),
        Some(LibCZIApiError::InvalidArgument)
    );
    let info = reader.try_get_sub_block_info_for_index(99).unwrap().unwrap();
    assert_eq!(info.get_m_index(), 99);
    assert_eq!(
        reader.try_get_sub_block_info_for_index(100).err(),
        Some(LibCZIApiError::IndexOutOfRange)
    );
    let last = reader.read_sub_block(99).unwrap().unwrap();
    assert_eq!(last.get_raw_data(RawDataType::Data, 8), Ok((8, vec![99; 8])));
}

#[test]
fn metadata_and_attachments_are_read_back() {
    for reserved in [0, 16, 4096] {
        let mut with_rooms = parameters();
        with_rooms.reserved_size_metadata_segment = reserved;
        with_rooms.reserved_size_attachments_directory = reserved;
        let mut writer = bound(true, &with_rooms);
        let start = writer.stream().size();
        let rooms = if reserved > 0 { 2 * (32 + reserved as usize) } else { 0 };
        assert_eq!(start, 544 + rooms);
        let xml = b"<ImageDocument><Metadata/></ImageDocument>";
        assert_eq!(writer.add_sub_block(tile(0, 0, 0, 0, &[3; 8])), Ok(()));
        let mut name = [0u8; 80];
        name[..9].copy_from_slice(b"Thumbnail");
        let mut kind = [0u8; 8];
        kind[..3].copy_from_slice(b"JPG");
        assert_eq!(
            writer.add_attachement(AddAttachmentInfo::new([9; 16], kind, name, 4, &[1, 2, 3, 4])),
            Ok(())
        );
        let before = writer.stream().size();
        assert_eq!(
            writer.write_metadata(WriteMetadataInfo::new(xml.len() as u32, xml)),
            Ok(())
        );
        if reserved == 4096 {
            assert_eq!(writer.stream().size(), before);
        } else {
            assert_eq!(writer.stream().size(), before + 32 + 256 + xml.len());
        }
        assert_eq!(
            writer.write_metadata(WriteMetadataInfo::new(xml.len() as u32, xml)),
            Err(LibCZIApiError::InvalidArgument)
        );
        assert_eq!(
            writer.add_attachement(AddAttachmentInfo::new([1; 16], kind, name, 9, &[1])),
            Err(LibCZIApiError::InvalidArgument)
        );
        assert_eq!(writer.close(), Ok(()));
        let reader = reopen(writer);
        let segment = reader.get_metadata_segment().unwrap();
        let text = segment.get_metadata_as_xml().unwrap();
        assert_eq!(text.data, xml.to_vec());
        assert_eq!(
            text.get_data(),
            Ok("<ImageDocument><Metadata/></ImageDocument>".to_string())
        );
        assert_eq!(segment.get_czi_document_info().unwrap().xml(), xml);
        assert_eq!(reader.get_attachment_count(), Ok(1));
        let info = reader.get_attachment_info_from_directory(0).unwrap();
        assert_eq!(info.get_guid(), [9; 16]);
        assert_eq!(info.get_name(), Ok("Thumbnail".to_string()));
        assert_eq!(&info.get_content_file_type()[..4], b"JPG\0");
        assert!(!info.get_name_overflow());
        assert_eq!(
            reader.get_attachment_info_from_directory(1).err(),
            Some(LibCZIApiError::IndexOutOfRange)
        );
        let attachment = reader.read_attachment(0).unwrap().unwrap();
        assert_eq!(attachment.get_raw_data(10), Ok((4, vec![1, 2, 3, 4])));
        assert_eq!(attachment.get_raw_data(2), Ok((4, vec![1, 2])));
        assert_eq!(
            attachment.get_info().unwrap().get_name(),
            Ok("Thumbnail".to_string())
        );
        assert!(reader.read_attachment(1).unwrap().is_none());
        assert!(reader.read_attachment(-1).unwrap().is_none());
        let sub_block = reader.read_sub_block(0).unwrap().unwrap();
        assert_eq!(sub_block.get_raw_data(RawDataType::Data, 8), Ok((8, vec![3; 8])));
    }
}

#[test]
fn a_container_that_is_cut_short_is_truncated() {
    let mut writer = bound(true, &parameters());
    assert_eq!(writer.add_sub_block(tile(0, 0, 0, 0, &[3; 8])), Ok(()));
    assert_eq!(writer.close(), Ok(()));
    let bytes = writer.release().unwrap().into_bytes();
    for size in [0, 31, 543, bytes.len() - 1] {
        let mut reader = CziReader::create().unwrap();
        let stream = InputStream::from_bytes(bytes[..size].to_vec());
        assert_eq!(
            reader.open(ReaderOpenInfo::new(&stream)),
            Err(LibCZIApiError::Truncated)
        );
    }
    let mut wrong = bytes.clone();
    wrong[0] = b'X';
    let mut reader = CziReader::create().unwrap();
    assert_eq!(
        reader.open(ReaderOpenInfo::new(&InputStream::from_bytes(wrong))),
        Err(LibCZIApiError::CorruptData)
    );
    let mut reader = CziReader::create().unwrap();
    let whole = ReaderOpenInfo::new(&InputStream::from_bytes(bytes));
    assert_eq!(reader.open(whole.clone()), Ok(()));
    assert_eq!(reader.open(whole), Err(LibCZIApiError::InvalidArgument));
}

#[test]
fn a_container_of_another_major_version_is_refused() {
    let mut writer = bound(true, &parameters());
    assert_eq!(writer.add_sub_block(tile(0, 0, 0, 0, &[3; 8])), Ok(()));
    assert_eq!(writer.close(), Ok(()));
    let bytes = writer.release().unwrap().into_bytes();
    assert_eq!(bytes[32..40], [1, 0, 0, 0, 0, 0, 0, 0]);
    let mut later = bytes.clone();
    later[32] = 2;
    let mut reader = CziReader::create().unwrap();
    assert_eq!(
        reader.open(ReaderOpenInfo::new(&InputStream::from_bytes(later))),
        Err(LibCZIApiError::CorruptData)
    );
    let mut revised = bytes;
    revised[36] = 7;
    let mut reader = CziReader::create().unwrap();
    assert_eq!(
        reader.open(ReaderOpenInfo::new(&InputStream::from_bytes(revised))),
        Ok(())
    );
    assert_eq!(reader.get_file_header_info().unwrap().get_minor_version(), 7);
}

#[test]
fn a_reader_tells_the_layers_of_the_pyramid_as_json() {
    let mut writer = bound(true, &parameters());
    assert_eq!(writer.add_sub_block(tile(0, 0, 0, 0, &[3; 8])), Ok(()));
    assert_eq!(writer.add_sub_block(tile(0, 4, 0, 1, &[4; 8])), Ok(()));
    assert_eq!(writer.add_sub_block(tile(2, 0, 9, 2, &[5; 8])), Ok(()));
    assert_eq!(writer.close(), Ok(()));
    let reader = reopen(writer);
    assert_eq!(
        reader.get_pyramid_statistics().unwrap(),
        "{\"scenePyramidStatistics\":{\
         \"0\":[{\"layerInfo\":{\"minificationFactor\":1,\"pyramidLayerNo\":0},\"count\":2}],\
         \"2\":[{\"layerInfo\":{\"minificationFactor\":1,\"pyramidLayerNo\":0},\"count\":1}]}}"
    );
    assert_eq!(reader.get_pyramid_layers().unwrap().len(), 2);
}
