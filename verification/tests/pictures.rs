use libczi::accessor::AccessorOptions;
use libczi::coordinate::Coordinate;
use libczi::geometry::{IntRect, IntSize};
use libczi::pixel::PixelType;
use libczi::reader::CziReader;
use libczi::stream::{InputStream, OutputStream, ReaderOpenInfo};
use libczi::subblock::AddSubBlockInfo;
use libczi::tiles::{background_pixel, color_byte, SingleChannelScalingTileAccessor};
use libczi::writer::{CziWriter, WriterOptions, WriterParameters};
use libczi::zoom::Zoom;
use libczi::LibCZIApiError;

fn options(sort_by_m: bool) -> AccessorOptions {
    AccessorOptions::new(
        0.0f32.to_bits(),
        0.0f32.to_bits(),
        0.0f32.to_bits(),
        sort_by_m,
        false,
        "",
    )
    .unwrap()
}

fn tile(channel: i32, x: i32, y: i32, w: i32, h: i32, stored: (i32, i32), m: Option<i32>, pixels: &[u8]) -> AddSubBlockInfo {
    AddSubBlockInfo::new(
        Coordinate::new(0b10, [channel, 0, 0, 0, 0, 0, 0, 0, 0]),
        if m.is_some() { 1 } else { 0 },
        m.unwrap_or(0),
        x,
        y,
        w,
        h,
        stored.0,
        stored.1,
        PixelType::Gray8,
        0,
        pixels.len() as u32,
        pixels,
        stored.0 as u32,
        0,
        &[],
        0,
        &[],
    )
}

fn accessor(tiles: Vec<AddSubBlockInfo>) -> SingleChannelScalingTileAccessor {
    let mut writer = CziWriter::create_with_options(&WriterOptions { allow_duplicate_subblocks: true }).unwrap();
    let parameters = WriterParameters {
        file_guid: [1; 16],
        reserved_size_attachments_directory: 0,
        reserved_size_metadata_segment: 0,
        minimum_m_index: 0,
        maximum_m_index: -1,
    };
    assert_eq!(writer.init_with_parameters(OutputStream::new(), &parameters), Ok(()));
    for info in tiles {
        assert_eq!(writer.add_sub_block(info), Ok(()));
    }
    assert_eq!(writer.close(), Ok(()));
    let stream = InputStream::from_bytes(writer.release().unwrap().into_bytes());
    let mut reader = CziReader::create().unwrap();
    assert_eq!(reader.open(ReaderOpenInfo::new(&stream)), Ok(()));
    reader.create_single_channel_tile_accessor().unwrap()
}

fn pixels(accessor: &SingleChannelScalingTileAccessor, channel: i32, roi: IntRect, zoom: f32, sort_by_m: bool) -> (u32, u32, Vec<u8>) {
    let plane = Coordinate::new(0b10, [channel, 0, 0, 0, 0, 0, 0, 0, 0]);
    let bitmap = accessor.get(plane, roi, zoom.to_bits(), options(sort_by_m)).unwrap();
    let info = bitmap.get_info().unwrap();
    let locked = bitmap.lock().unwrap();
    (info.get_width(), info.get_height(), locked.lock_info.get_data_roi())
}

#[test]
fn a_zoom_factor_is_the_number_that_the_bits_stand_for() {
    assert_eq!(
        Zoom::from_bits(1.0f32.to_bits()),
        Some(Zoom { mantissa: 0x80_0000, exponent: -23 })
    );
    assert_eq!(
        Zoom::from_bits(0.5f32.to_bits()),
        Some(Zoom { mantissa: 0x80_0000, exponent: -24 })
    );
    assert_eq!(
        Zoom::from_bits(3.0f32.to_bits()),
        Some(Zoom { mantissa: 0xc0_0000, exponent: -22 })
    );
    assert_eq!(
        Zoom::from_bits(f32::from_bits(1).to_bits()),
        Some(Zoom { mantissa: 1, exponent: -149 })
    );
    assert_eq!(
        Zoom::from_bits(f32::MAX.to_bits()),
        Some(Zoom { mantissa: 0xff_ffff, exponent: 104 })
    );
    for refused in [0.0f32, -0.0, -1.0, f32::INFINITY, f32::NEG_INFINITY, f32::NAN] {
        assert_eq!(Zoom::from_bits(refused.to_bits()), None);
    }
}

#[test]
fn lengths_are_scaled_and_rounded_to_the_nearest_whole_number() {
    let scale = |zoom: f32, length: u32| Zoom::from_bits(zoom.to_bits()).unwrap().scale(length);
    assert_eq!(scale(1.0, 100), Some(100));
    assert_eq!(scale(0.5, 100), Some(50));
    assert_eq!(scale(0.5, 101), Some(51));
    assert_eq!(scale(0.25, 101), Some(25));
    assert_eq!(scale(0.25, 102), Some(26));
    assert_eq!(scale(0.75, 3), Some(2));
    assert_eq!(scale(2.0, 7), Some(14));
    assert_eq!(scale(1.5, 3), Some(5));
    assert_eq!(scale(0.001, 10), Some(0));
    assert_eq!(scale(f32::from_bits(1), u32::MAX), Some(0));
    assert_eq!(scale(1.0, i32::MAX as u32), Some(i32::MAX));
    assert_eq!(scale(1.0, i32::MAX as u32 + 1), None);
    assert_eq!(scale(f32::MAX, 1), None);
    assert_eq!(scale(f32::MAX, 0), Some(0));
    assert_eq!(scale(4294967296.0, 1), None);
}

#[test]
fn places_are_taken_back_to_the_source_rounded_down() {
    let unscale = |zoom: f32, place: u32, limit: u32| {
        Zoom::from_bits(zoom.to_bits()).unwrap().unscale(place, limit)
    };
    assert_eq!(unscale(1.0, 5, 100), 5);
    assert_eq!(unscale(0.5, 5, 100), 10);
    assert_eq!(unscale(0.5, 60, 100), 100);
    assert_eq!(unscale(2.0, 5, 100), 2);
    assert_eq!(unscale(0.75, 2, 100), 2);
    assert_eq!(unscale(0.75, 3, 100), 4);
    assert_eq!(unscale(f32::MAX, 1000, 7), 0);
    assert_eq!(unscale(f32::from_bits(1), 1, 7), 7);
    assert_eq!(unscale(f32::from_bits(1), 0, 7), 0);
}

#[test]
fn a_layer_is_fine_enough_when_it_needs_no_scaling_up() {
    let fine = |zoom: f32, factor: u32| {
        Zoom::from_bits(zoom.to_bits()).unwrap().is_fine_enough(factor)
    };
    assert!(fine(1.0, 1));
    assert!(!fine(1.0, 2));
    assert!(fine(0.5, 2));
    assert!(!fine(0.5, 3));
    assert!(fine(0.25, 4));
    assert!(fine(0.3, 3));
    assert!(!fine(0.3, 4));
    assert!(!fine(2.0, 1));
    assert!(fine(f32::from_bits(1), u32::MAX));
}

#[test]
fn the_size_of_a_picture_is_the_size_of_the_region_times_the_zoom() {
    let accessor = accessor(vec![]);
    let size = |roi: IntRect, zoom: f32| accessor.calc_size(roi, zoom.to_bits());
    assert_eq!(size(IntRect::new(0, 0, 100, 50), 1.0), Ok(IntSize::new(100, 50)));
    assert_eq!(size(IntRect::new(-5, 8, 101, 51), 0.5), Ok(IntSize::new(51, 26)));
    assert_eq!(size(IntRect::new(0, 0, 3, 7), 0.1), Ok(IntSize::new(0, 1)));
    assert_eq!(size(IntRect::new(0, 0, 10, 10), 2.5), Ok(IntSize::new(25, 25)));
    for (roi, zoom) in [
        (IntRect::new(0, 0, 0, 10), 1.0f32),
        (IntRect::new(0, 0, 10, -1), 1.0),
        (IntRect::new(0, 0, 10, 10), 0.0),
        (IntRect::new(0, 0, 10, 10), -1.0),
        (IntRect::new(0, 0, 10, 10), f32::NAN),
        (IntRect::new(0, 0, 10, 10), f32::INFINITY),
        (IntRect::new(0, 0, i32::MAX, 10), 2.0),
    ] {
        assert_eq!(size(roi, zoom), Err(LibCZIApiError::InvalidArgument));
    }
}

#[test]
fn a_picture_has_the_size_that_was_calculated() {
    let accessor = accessor(vec![tile(0, 0, 0, 4, 4, (4, 4), Some(0), &[7; 16])]);
    for (roi, zoom) in [
        (IntRect::new(0, 0, 4, 4), 1.0f32),
        (IntRect::new(-3, -3, 9, 5), 0.5),
        (IntRect::new(1, 1, 3, 2), 3.0),
        (IntRect::new(0, 0, 7, 3), 0.3),
    ] {
        let size = accessor.calc_size(roi, zoom.to_bits()).unwrap();
        let (width, height, data) = pixels(&accessor, 0, roi, zoom, true);
        assert_eq!((width as i32, height as i32), (size.get_w(), size.get_h()));
        assert_eq!(data.len() as u32, width * height);
    }
}

#[test]
fn the_same_request_gives_the_same_picture() {
    let accessor = accessor(vec![
        tile(0, 0, 0, 4, 4, (4, 4), Some(2), &[1; 16]),
        tile(0, 2, 2, 4, 4, (4, 4), Some(1), &[2; 16]),
        tile(0, 3, 0, 2, 2, (2, 2), None, &[3; 4]),
    ]);
    let roi = IntRect::new(-1, -1, 8, 8);
    for zoom in [1.0f32, 0.5, 0.37, 2.0] {
        let first = pixels(&accessor, 0, roi, zoom, true);
        let second = pixels(&accessor, 0, roi, zoom, true);
        let third = pixels(&accessor.clone(), 0, roi, zoom, true);
        assert_eq!(first, second);
        assert_eq!(first, third);
    }
}

#[test]
fn sub_blocks_are_painted_by_rising_m_index() {
    let accessor = accessor(vec![
        tile(0, 0, 0, 3, 2, (3, 2), Some(5), &[5; 6]),
        tile(0, 1, 0, 3, 2, (3, 2), Some(1), &[1; 6]),
        tile(0, 2, 1, 3, 2, (3, 2), None, &[9; 6]),
    ]);
    let roi = IntRect::new(0, 0, 5, 3);
    assert_eq!(
        pixels(&accessor, 0, roi, 1.0, true),
        (5, 3, vec![5, 5, 5, 1, 0, 5, 5, 5, 1, 9, 0, 0, 9, 9, 9])
    );
    assert_eq!(
        pixels(&accessor, 0, roi, 1.0, false),
        (5, 3, vec![5, 1, 1, 1, 0, 5, 1, 9, 9, 9, 0, 0, 9, 9, 9])
    );
}

#[test]
fn equal_m_indices_are_painted_in_the_order_of_the_directory() {
    let accessor = accessor(vec![
        tile(0, 0, 0, 2, 1, (2, 1), Some(3), &[1, 1]),
        tile(0, 1, 0, 2, 1, (2, 1), Some(3), &[2, 2]),
    ]);
    assert_eq!(
        pixels(&accessor, 0, IntRect::new(0, 0, 3, 1), 1.0, true),
        (3, 1, vec![1, 2, 2])
    );
}

#[test]
fn only_the_sub_blocks_of_the_plane_are_painted() {
    let accessor = accessor(vec![
        tile(0, 0, 0, 2, 2, (2, 2), Some(0), &[4; 4]),
        tile(1, 0, 0, 2, 2, (2, 2), Some(0), &[6; 4]),
    ]);
    let roi = IntRect::new(0, 0, 2, 2);
    assert_eq!(pixels(&accessor, 0, roi, 1.0, true), (2, 2, vec![4; 4]));
    assert_eq!(pixels(&accessor, 1, roi, 1.0, true), (2, 2, vec![6; 4]));
    assert_eq!(pixels(&accessor, 2, roi, 1.0, true), (2, 2, vec![0; 4]));
    let any = Coordinate::new(0, [0; 9]);
    let bitmap = accessor.get(any, roi, 1.0f32.to_bits(), options(true)).unwrap();
    assert_eq!(bitmap.lock().unwrap().lock_info.get_data_roi(), vec![6; 4]);
}

#[test]
fn a_picture_is_scaled_by_taking_the_nearest_pixel_before() {
    let accessor = accessor(vec![tile(
        0,
        0,
        0,
        4,
        2,
        (4, 2),
        Some(0),
        &[10, 11, 12, 13, 20, 21, 22, 23],
    )]);
    let roi = IntRect::new(0, 0, 4, 2);
    assert_eq!(
        pixels(&accessor, 0, roi, 0.5, true),
        (2, 1, vec![10, 12])
    );
    assert_eq!(
        pixels(&accessor, 0, roi, 2.0, true),
        (
            8,
            4,
            vec![
                10, 10, 11, 11, 12, 12, 13, 13, 10, 10, 11, 11, 12, 12, 13, 13, 20, 20, 21, 21,
                22, 22, 23, 23, 20, 20, 21, 21, 22, 22, 23, 23
            ]
        )
    );
}

#[test]
fn the_coarsest_layer_that_is_fine_enough_is_taken() {
    let accessor = accessor(vec![
        tile(0, 0, 0, 4, 4, (4, 4), Some(0), &[1; 16]),
        tile(0, 0, 0, 4, 4, (2, 2), Some(0), &[2; 4]),
        tile(0, 0, 0, 4, 4, (1, 1), Some(0), &[4; 1]),
    ]);
    let roi = IntRect::new(0, 0, 4, 4);
    assert_eq!(pixels(&accessor, 0, roi, 1.0, true), (4, 4, vec![1; 16]));
    assert_eq!(pixels(&accessor, 0, roi, 0.75, true), (3, 3, vec![1; 9]));
    assert_eq!(pixels(&accessor, 0, roi, 0.5, true), (2, 2, vec![2; 4]));
    assert_eq!(pixels(&accessor, 0, roi, 0.25, true), (1, 1, vec![4; 1]));
    assert_eq!(pixels(&accessor, 0, roi, 2.0, true), (8, 8, vec![1; 64]));
}

#[test]
fn what_no_sub_block_covers_has_the_background_colour() {
    let accessor = accessor(vec![tile(0, 1, 0, 1, 1, (1, 1), Some(0), &[9])]);
    let plane = Coordinate::new(0b10, [0, 0, 0, 0, 0, 0, 0, 0, 0]);
    let white = AccessorOptions::new(
        1.0f32.to_bits(),
        1.0f32.to_bits(),
        1.0f32.to_bits(),
        true,
        true,
        "",
    )
    .unwrap();
    let bitmap = accessor
        .get(plane, IntRect::new(0, 0, 3, 1), 1.0f32.to_bits(), white)
        .unwrap();
    assert_eq!(
        bitmap.lock().unwrap().lock_info.get_data_roi(),
        vec![255, 9, 255]
    );
    let gray = AccessorOptions::new(
        0.2f32.to_bits(),
        0.4f32.to_bits(),
        0.6f32.to_bits(),
        true,
        false,
        "",
    )
    .unwrap();
    let bitmap = accessor
        .get(plane, IntRect::new(0, 0, 3, 1), 1.0f32.to_bits(), gray)
        .unwrap();
    assert_eq!(
        bitmap.lock().unwrap().lock_info.get_data_roi(),
        vec![102, 9, 102]
    );
}

#[test]
fn the_parts_of_a_colour_become_bytes() {
    assert_eq!(color_byte(0.0f32.to_bits()), 0);
    assert_eq!(color_byte(1.0f32.to_bits()), 255);
    assert_eq!(color_byte(0.5f32.to_bits()), 128);
    assert_eq!(color_byte(0.2f32.to_bits()), 51);
    assert_eq!(color_byte(2.0f32.to_bits()), 255);
    assert_eq!(color_byte((-1.0f32).to_bits()), 0);
    assert_eq!(color_byte(f32::NAN.to_bits()), 0);
    assert_eq!(color_byte(f32::INFINITY.to_bits()), 255);
    assert_eq!(color_byte(f32::NEG_INFINITY.to_bits()), 0);
    let color = (0.2f32.to_bits(), 0.4f32.to_bits(), 1.0f32.to_bits());
    assert_eq!(
        background_pixel(PixelType::Gray8, color.0, color.1, color.2),
        vec![136]
    );
    assert_eq!(
        background_pixel(PixelType::Gray16, color.0, color.1, color.2),
        vec![136, 136]
    );
    assert_eq!(
        background_pixel(PixelType::Bgr24, color.0, color.1, color.2),
        vec![255, 102, 51]
    );
    assert_eq!(
        background_pixel(PixelType::Bgr48, color.0, color.1, color.2),
        vec![255, 255, 102, 102, 51, 51]
    );
    assert_eq!(
        background_pixel(PixelType::Bgra32, color.0, color.1, color.2),
        vec![255, 102, 51, 255]
    );
    assert_eq!(
        background_pixel(PixelType::Gray32Float, color.0, color.1, color.2),
        vec![0; 4]
    );
}

#[test]
fn a_request_that_makes_no_sense_is_refused() {
    let accessor = accessor(vec![tile(0, 0, 0, 2, 2, (2, 2), Some(0), &[4; 4])]);
    let plane = Coordinate::new(0b10, [0, 0, 0, 0, 0, 0, 0, 0, 0]);
    let unknown = Coordinate::new(0x200, [0; 9]);
    let roi = IntRect::new(0, 0, 2, 2);
    assert_eq!(
        accessor.get(unknown, roi, 1.0f32.to_bits(), options(true)).err(),
        Some(LibCZIApiError::InvalidArgument)
    );
    assert_eq!(
        accessor
            .get(plane, IntRect::new(0, 0, 0, 2), 1.0f32.to_bits(), options(true))
            .err(),
        Some(LibCZIApiError::InvalidArgument)
    );
    assert_eq!(
        accessor.get(plane, roi, 0.0f32.to_bits(), options(true)).err(),
        Some(LibCZIApiError::InvalidArgument)
    );
    assert_eq!(accessor.release(), Ok(()));
}

#[test]
fn compressed_sub_blocks_cannot_be_painted() {
    let mut packed = tile(0, 0, 0, 2, 2, (2, 2), Some(0), &[]);
    packed.set_compression_mode_raw(5);
    packed.set_data(&[1, 2, 3]);
    let accessor = accessor(vec![packed]);
    let plane = Coordinate::new(0b10, [0, 0, 0, 0, 0, 0, 0, 0, 0]);
    assert_eq!(
        accessor
            .get(plane, IntRect::new(0, 0, 2, 2), 1.0f32.to_bits(), options(true))
            .err(),
        Some(LibCZIApiError::UnspecifiedError)
    );
    assert!(pixels(&accessor, 0, IntRect::new(5, 5, 2, 2), 1.0, true).2 == vec![0; 4]);
}

fn options_leaving_hidden_out(sort_by_m: bool) -> AccessorOptions {
    let mut options = options(sort_by_m);
    options.set_use_visibility_check_optimization(true);
    options
}

#[test]
fn leaving_hidden_sub_blocks_out_gives_the_same_picture() {
    let accessor = accessor(vec![
        tile(0, 0, 0, 4, 2, (4, 2), Some(0), &[1, 2, 3, 4, 5, 6, 7, 8]),
        tile(0, 2, 0, 2, 2, (2, 2), Some(1), &[21, 22, 23, 24]),
        tile(0, 0, 0, 2, 2, (2, 2), Some(2), &[31, 32, 33, 34]),
        tile(0, 1, 1, 2, 1, (2, 1), None, &[41, 42]),
    ]);
    let plane = Coordinate::new(0b10, [0, 0, 0, 0, 0, 0, 0, 0, 0]);
    for sort_by_m in [true, false] {
        for roi in [
            IntRect::new(0, 0, 4, 2),
            IntRect::new(2, 0, 2, 2),
            IntRect::new(1, 1, 2, 1),
            IntRect::new(-1, -1, 6, 4),
        ] {
            for zoom in [1.0f32, 0.5, 2.0] {
                let plain = accessor
                    .get(plane, roi, zoom.to_bits(), options(sort_by_m))
                    .unwrap();
                let checked = accessor
                    .get(plane, roi, zoom.to_bits(), options_leaving_hidden_out(sort_by_m))
                    .unwrap();
                assert_eq!(plain.get_info().unwrap(), checked.get_info().unwrap());
                assert_eq!(
                    plain.lock().unwrap().lock_info.get_data_roi(),
                    checked.lock().unwrap().lock_info.get_data_roi()
                );
            }
        }
    }
    let whole = accessor
        .get(plane, IntRect::new(0, 0, 4, 2), 1.0f32.to_bits(), options_leaving_hidden_out(true))
        .unwrap();
    assert_eq!(
        whole.lock().unwrap().lock_info.get_data_roi(),
        vec![31, 32, 21, 22, 33, 34, 23, 24]
    );
}

#[test]
fn a_hidden_sub_block_is_not_read_where_hidden_ones_are_left_out() {
    let mut packed = tile(0, 0, 0, 4, 2, (4, 2), Some(0), &[]);
    packed.set_compression_mode_raw(5);
    packed.set_data(&[1, 2, 3]);
    let accessor = accessor(vec![
        packed,
        tile(0, 2, 0, 2, 2, (2, 2), Some(1), &[21, 22, 23, 24]),
    ]);
    let plane = Coordinate::new(0b10, [0, 0, 0, 0, 0, 0, 0, 0, 0]);
    let behind = IntRect::new(2, 0, 2, 2);
    assert_eq!(
        accessor.get(plane, behind, 1.0f32.to_bits(), options(true)).err(),
        Some(LibCZIApiError::UnspecifiedError)
    );
    let picture = accessor
        .get(plane, behind, 1.0f32.to_bits(), options_leaving_hidden_out(true))
        .unwrap();
    assert_eq!(picture.lock().unwrap().lock_info.get_data_roi(), vec![21, 22, 23, 24]);
    let beside = IntRect::new(1, 0, 3, 2);
    assert_eq!(
        accessor
            .get(plane, beside, 1.0f32.to_bits(), options_leaving_hidden_out(true))
            .err(),
        Some(LibCZIApiError::UnspecifiedError)
    );
}

#[test]
fn sub_blocks_of_two_pixel_types_are_not_painted_together() {
    let mut wide = tile(0, 1, 0, 1, 1, (1, 1), Some(1), &[]);
    wide.set_pixel_type(PixelType::Gray16);
    wide.set_stride(2);
    wide.set_data(&[7, 0]);
    let accessor = accessor(vec![tile(0, 0, 0, 1, 1, (1, 1), Some(0), &[9]), wide]);
    let plane = Coordinate::new(0b10, [0, 0, 0, 0, 0, 0, 0, 0, 0]);
    assert_eq!(
        accessor
            .get(plane, IntRect::new(0, 0, 2, 1), 1.0f32.to_bits(), options(true))
            .err(),
        Some(LibCZIApiError::InvalidArgument)
    );
    assert_eq!(pixels(&accessor, 0, IntRect::new(0, 0, 1, 1), 1.0, true).2, vec![9]);
    let alone = accessor
        .get(plane, IntRect::new(1, 0, 1, 1), 1.0f32.to_bits(), options(true))
        .unwrap();
    assert_eq!(alone.get_info().unwrap().get_pixel_type(), Ok(PixelType::Gray16));
    assert_eq!(alone.lock().unwrap().lock_info.get_data_roi(), vec![7, 0]);
}
