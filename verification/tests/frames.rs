use libczi::coordinate::Coordinate;
use libczi::pixel::{PixelType, RawDataType};
use libczi::reader::CziReader;
use libczi::stream::{InputStream, OutputStream, ReaderOpenInfo};
use libczi::subblock::{AddSubBlockInfo, COMPRESSION_ZSTD0, COMPRESSION_ZSTD1};
use libczi::writer::{CziWriter, WriterOptions, WriterParameters};
use libczi::zstd::{
    put_bytes_together, read_frame, read_frame_start, read_stored_frame, write_stored_frame,
    BLOCK_SIZE,
};
use libczi::{AccessorOptions, IntRect, LibCZIApiError};

const MARK: [u8; 4] = [0x28, 0xb5, 0x2f, 0xfd];

fn frame(parts: &[&[u8]]) -> Vec<u8> {
    let mut bytes = MARK.to_vec();
    for part in parts {
        bytes.extend_from_slice(part);
    }
    bytes
}

#[test]
fn a_frame_stores_its_content_in_blocks() {
    assert_eq!(
        write_stored_frame(b"hello"),
        frame(&[&[0xe0], &[5, 0, 0, 0, 0, 0, 0, 0], &[41, 0, 0], b"hello"])
    );
    assert_eq!(
        write_stored_frame(b""),
        frame(&[&[0xe0], &[0; 8], &[1, 0, 0]])
    );
    let long = vec![7u8; BLOCK_SIZE + 2];
    let stored = write_stored_frame(&long);
    assert_eq!(stored.len(), 13 + 3 + BLOCK_SIZE + 3 + 2);
    assert_eq!(stored[5..13], [2, 0, 2, 0, 0, 0, 0, 0]);
    assert_eq!(stored[13..16], [0, 0, 0x10]);
    assert_eq!(stored[16 + BLOCK_SIZE..19 + BLOCK_SIZE], [17, 0, 0]);
}

#[test]
fn a_frame_that_was_stored_is_read_back() {
    for size in [0, 1, 2, 1000, BLOCK_SIZE - 1, BLOCK_SIZE, BLOCK_SIZE + 1, 3 * BLOCK_SIZE + 5] {
        let content: Vec<u8> = (0..size).map(|place| (place * 7 % 251) as u8).collect();
        assert_eq!(read_stored_frame(&write_stored_frame(&content)), Some(content));
    }
}

#[test]
fn frames_of_other_makers_are_read_where_they_store_their_content() {
    // A window, a checksum, a block as it is and a block of one byte.
    let bytes = frame(&[&[0x04, 0x00], &[16, 0, 0], b"ab", &[27, 0, 0], b"z", &[1, 2, 3, 4]]);
    assert_eq!(read_stored_frame(&bytes), Some(b"abzzz".to_vec()));
    // A size in two bytes stands for 256 more.
    let content = vec![9u8; 300];
    let sized = frame(&[&[0x40, 0x00], &[44, 0], &[0x61, 0x09, 0], &content]);
    assert_eq!(read_stored_frame(&sized), Some(content.clone()));
    // A single segment with a size in one byte, and room for the number of a dictionary.
    let single = frame(&[&[0x21], &[0], &[3], &[25, 0, 0], b"abc"]);
    assert_eq!(read_stored_frame(&single), Some(b"abc".to_vec()));
    // A size in four bytes, and room for a dictionary in four bytes.
    let wide = frame(&[&[0x83, 0x00], &[0, 0, 0, 0], &[2, 0, 0, 0], &[19, 0, 0], b"q"]);
    assert_eq!(read_stored_frame(&wide), Some(b"qq".to_vec()));
    assert_eq!(read_frame(&wide), Some(b"qq".to_vec()));
    // A frame that names a dictionary is not read.
    let named = frame(&[&[0x21], &[0x55], &[3], &[25, 0, 0], b"abc"]);
    assert_eq!(read_stored_frame(&named), None);
    assert_eq!(read_frame(&named), None);
    let named = frame(&[&[0x83, 0x00], &[0, 0, 0, 4], &[2, 0, 0, 0], &[19, 0, 0], b"q"]);
    assert_eq!(read_frame(&named), None);
    // No size at all.
    let bare = frame(&[&[0x00, 0x00], &[9, 0, 0], b"x"]);
    assert_eq!(read_stored_frame(&bare), Some(b"x".to_vec()));
}

#[test]
fn what_is_no_stored_frame_is_not_read() {
    let good = frame(&[&[0x00, 0x00], &[9, 0, 0], b"x"]);
    assert!(read_stored_frame(&good).is_some());
    let mut wrong_mark = good.clone();
    wrong_mark[0] = 0x27;
    let mut reserved = good.clone();
    reserved[4] = 0x08;
    let mut followed = good.clone();
    followed.push(0);
    let compressed = frame(&[&[0x00, 0x00], &[13, 0, 0], b"x"]);
    let unknown = frame(&[&[0x00, 0x00], &[15, 0, 0], b"x"]);
    let unfinished = frame(&[&[0x00, 0x00], &[8, 0, 0], b"x"]);
    let wrong_size = frame(&[&[0x20], &[2], &[9, 0, 0], b"x"]);
    let no_checksum = frame(&[&[0x04, 0x00], &[9, 0, 0], b"x"]);
    let short_block = frame(&[&[0x00, 0x00], &[17, 0, 0], b"x"]);
    // `compressed` has a block of the compressed kind whose one byte is no
    // such block.
    for bytes in [
        &wrong_mark, &reserved, &followed, &compressed, &unknown, &unfinished, &wrong_size,
        &no_checksum, &short_block,
    ] {
        assert_eq!(read_stored_frame(bytes), None);
        assert_eq!(read_frame(bytes), None);
    }
    for size in 0..good.len() {
        assert_eq!(read_stored_frame(&good[..size]), None);
        assert_eq!(read_frame(&good[..size]), None);
    }
    assert_eq!(read_frame(&good), Some(b"x".to_vec()));
}

#[test]
fn bytes_that_were_put_apart_are_put_together() {
    assert_eq!(put_bytes_together(&[1, 2, 3, 11, 12, 13]), vec![1, 11, 2, 12, 3, 13]);
    assert_eq!(put_bytes_together(&[]), Vec::<u8>::new());
    assert_eq!(read_frame_start(&[1, 9, 9]), Some((false, 1)));
    assert_eq!(read_frame_start(&[3, 1, 0]), Some((false, 3)));
    assert_eq!(read_frame_start(&[3, 1, 1]), Some((true, 3)));
    assert_eq!(read_frame_start(&[3, 1, 3, 7]), Some((true, 3)));
    for none in [&[][..], &[0], &[2, 1], &[3, 1], &[3, 2, 1], &[4, 1, 1, 1]] {
        assert_eq!(read_frame_start(none), None);
    }
}

fn written(pixel_type: PixelType, width: i32, mode: i32, data: &[u8]) -> CziReader {
    let mut writer =
        CziWriter::create_with_options(&WriterOptions { allow_duplicate_subblocks: false })
            .unwrap();
    let parameters = WriterParameters {
        file_guid: [3; 16],
        reserved_size_attachments_directory: 0,
        reserved_size_metadata_segment: 0,
        minimum_m_index: 0,
        maximum_m_index: -1,
    };
    assert_eq!(writer.init_with_parameters(OutputStream::new(), &parameters), Ok(()));
    let info = AddSubBlockInfo::new(
        Coordinate::new(0b10, [0, 0, 0, 0, 0, 0, 0, 0, 0]),
        1,
        0,
        0,
        0,
        width,
        1,
        width,
        1,
        pixel_type,
        mode,
        data.len() as u32,
        data,
        0,
        0,
        &[],
        0,
        &[],
    );
    assert_eq!(writer.add_sub_block(info), Ok(()));
    assert_eq!(writer.close(), Ok(()));
    let stream = InputStream::from_bytes(writer.release().unwrap().into_bytes());
    let mut reader = CziReader::create().unwrap();
    assert_eq!(reader.open(ReaderOpenInfo::new(&stream)), Ok(()));
    reader
}

#[test]
fn pixels_that_were_stored_in_a_frame_are_decoded() {
    let pixels = [10u8, 20, 30, 40];
    let stored = write_stored_frame(&pixels);
    let reader = written(PixelType::Gray8, 4, COMPRESSION_ZSTD0, &stored);
    let sub_block = reader.read_sub_block(0).unwrap().unwrap();
    assert_eq!(
        sub_block.get_raw_data(RawDataType::Data, 1000),
        Ok((stored.len() as i32, stored.clone()))
    );
    assert_eq!(sub_block.decoded_pixels(), Ok(pixels.to_vec()));
    let bitmap = sub_block.create_bitmap().unwrap();
    let info = bitmap.get_info().unwrap();
    assert_eq!((info.get_width(), info.get_height()), (4, 1));
    assert_eq!(bitmap.lock().unwrap().lock_info.get_data_roi(), pixels.to_vec());

    let accessor = reader.create_single_channel_tile_accessor().unwrap();
    let options = AccessorOptions::new(0, 0, 0, true, false, "").unwrap();
    let picture = accessor
        .get(
            Coordinate::new(0b10, [0, 0, 0, 0, 0, 0, 0, 0, 0]),
            IntRect::new(1, 0, 2, 1),
            1.0f32.to_bits(),
            options,
        )
        .unwrap();
    assert_eq!(picture.lock().unwrap().lock_info.get_data_roi(), vec![20, 30]);
}

#[test]
fn the_second_manner_has_a_few_bytes_in_front_of_the_frame() {
    let plain = [[1u8].to_vec(), write_stored_frame(&[1, 2, 3, 4])].concat();
    let reader = written(PixelType::Gray16, 2, COMPRESSION_ZSTD1, &plain);
    let sub_block = reader.read_sub_block(0).unwrap().unwrap();
    assert_eq!(sub_block.decoded_pixels(), Ok(vec![1, 2, 3, 4]));

    let apart = [[3u8, 1, 1].to_vec(), write_stored_frame(&[1, 2, 11, 12])].concat();
    let reader = written(PixelType::Gray16, 2, COMPRESSION_ZSTD1, &apart);
    let sub_block = reader.read_sub_block(0).unwrap().unwrap();
    assert_eq!(sub_block.decoded_pixels(), Ok(vec![1, 11, 2, 12]));
    let bitmap = sub_block.create_bitmap().unwrap();
    assert_eq!(bitmap.lock().unwrap().lock_info.get_data_roi(), vec![1, 11, 2, 12]);

    let odd = [[3u8, 1, 1].to_vec(), write_stored_frame(&[1, 2, 3])].concat();
    let reader = written(PixelType::Gray8, 3, COMPRESSION_ZSTD1, &odd);
    let sub_block = reader.read_sub_block(0).unwrap().unwrap();
    assert_eq!(sub_block.decoded_pixels(), Err(LibCZIApiError::CorruptData));
    assert_eq!(sub_block.create_bitmap().err(), Some(LibCZIApiError::CorruptData));
}

#[test]
fn data_that_cannot_be_decoded_gives_an_error() {
    let stored = write_stored_frame(&[1, 2, 3]);
    // The frame holds three pixels, the sub-block is four pixels wide.
    let reader = written(PixelType::Gray8, 4, COMPRESSION_ZSTD0, &stored);
    let sub_block = reader.read_sub_block(0).unwrap().unwrap();
    assert_eq!(sub_block.decoded_pixels(), Ok(vec![1, 2, 3]));
    assert_eq!(sub_block.create_bitmap().err(), Some(LibCZIApiError::CorruptData));
    for (mode, data) in [
        (COMPRESSION_ZSTD0, &b"no frame"[..]),
        (COMPRESSION_ZSTD1, &stored[..]),
        (1, &stored[..]),
        (2, &stored[..]),
        (4, &stored[..]),
        (100, &stored[..]),
    ] {
        let reader = written(PixelType::Gray8, 3, mode, data);
        let sub_block = reader.read_sub_block(0).unwrap().unwrap();
        assert_eq!(sub_block.decoded_pixels(), Err(LibCZIApiError::UnspecifiedError));
        assert_eq!(sub_block.create_bitmap().err(), Some(LibCZIApiError::UnspecifiedError));
        assert_eq!(sub_block.decoded_form(), Err(LibCZIApiError::UnspecifiedError));
    }
}
