use libczi::accessor::{ChannelDisplaySettings, CompositionChannelInfo, DisplaySettings};
use libczi::bitmap::Bitmap;
use libczi::composition::compositor_do_multi_channel_composition;
use libczi::coordinate::Coordinate;
use libczi::pixel::PixelType;
use libczi::pyramid::{layer_number_of, pyramid_statistics, pyramid_statistics_json, PyramidLayerStatistics};
use libczi::reader::CziReader;
use libczi::subblock::SubBlockDirectoryEntry;
use libczi::{IntRect, IntSize, LibCZIApiError};

fn gray8(width: u32, height: u32, pixels: &[u8]) -> Bitmap {
    Bitmap::create(width, height, PixelType::Gray8, width, pixels.to_vec()).unwrap()
}

fn channel(weight: f32, tint: Option<(u8, u8, u8)>, table: &[u8]) -> CompositionChannelInfo {
    let (r, g, b) = tint.unwrap_or((0, 0, 0));
    CompositionChannelInfo::new(
        weight.to_bits(),
        if tint.is_some() { 1 } else { 0 },
        r,
        g,
        b,
        0.0f32.to_bits(),
        1.0f32.to_bits(),
        table.len() as i32,
        table,
    )
}

fn pixels(bitmap: Bitmap) -> Vec<u8> {
    bitmap.lock().unwrap().lock_info.get_data_roi()
}

#[test]
fn one_channel_without_tint_gives_gray() {
    let picture = compositor_do_multi_channel_composition(
        1,
        vec![gray8(2, 1, &[10, 200])],
        vec![channel(1.0, None, &[])],
    )
    .unwrap();
    assert_eq!(picture.get_stride(), 6);
    let info = picture.get_info().unwrap();
    assert_eq!((info.get_width(), info.get_height()), (2, 1));
    assert_eq!(info.get_pixel_type(), Ok(PixelType::Bgr24));
    assert_eq!(pixels(picture), vec![10, 10, 10, 200, 200, 200]);
}

#[test]
fn a_channel_is_tinted_weighted_and_looked_up() {
    let mut inverse = [0u8; 256];
    for (place, value) in inverse.iter_mut().enumerate() {
        *value = 255 - place as u8;
    }
    let picture = compositor_do_multi_channel_composition(
        1,
        vec![gray8(1, 1, &[55])],
        vec![channel(0.5, Some((255, 128, 0)), &inverse)],
    )
    .unwrap();
    // 55 is looked up as 200; tinted it is (200, 100, 0); half of that is (100, 50, 0).
    assert_eq!(pixels(picture), vec![0, 50, 100]);
}

#[test]
fn the_channels_are_added_up_and_cut_at_255() {
    let picture = compositor_do_multi_channel_composition(
        3,
        vec![
            gray8(2, 1, &[100, 250]),
            gray8(2, 1, &[50, 250]),
            gray8(2, 1, &[7, 9]),
        ],
        vec![
            channel(1.0, Some((255, 0, 0)), &[]),
            channel(2.0, Some((0, 255, 255)), &[]),
            channel(0.0, None, &[]),
        ],
    )
    .unwrap();
    assert_eq!(pixels(picture), vec![100, 100, 100, 255, 255, 250]);
}

fn stretched(black: f32, white: f32) -> CompositionChannelInfo {
    CompositionChannelInfo::new(
        1.0f32.to_bits(),
        0,
        0,
        0,
        0,
        black.to_bits(),
        white.to_bits(),
        0,
        &[],
    )
}

fn grays(bitmap: Bitmap, info: CompositionChannelInfo) -> Vec<u8> {
    let picture = compositor_do_multi_channel_composition(1, vec![bitmap], vec![info]).unwrap();
    pixels(picture).chunks(3).map(|pixel| {
        assert!(pixel[0] == pixel[1] && pixel[1] == pixel[2]);
        pixel[0]
    }).collect()
}

#[test]
fn intensities_are_stretched_between_the_black_and_the_white_point() {
    let row = [0, 50, 51, 52, 102, 152, 153, 200, 255];
    // The levels are 51 and 153.
    assert_eq!(
        grays(gray8(9, 1, &row), stretched(0.2, 0.6)),
        vec![0, 0, 0, 3, 128, 253, 255, 255, 255]
    );
    assert_eq!(grays(gray8(9, 1, &row), stretched(0.0, 1.0)), row.to_vec());
    assert_eq!(grays(gray8(9, 1, &row), stretched(0.0, 2.0)), row.to_vec());
    assert_eq!(grays(gray8(9, 1, &row), stretched(-1.0, f32::INFINITY)), vec![0, 255, 255, 255, 255, 255, 255, 255, 255]);
    // A white point at or below the black point leaves a step at the black level.
    assert_eq!(
        grays(gray8(4, 1, &[0, 128, 129, 255]), stretched(0.5, 0.25)),
        vec![0, 0, 255, 255]
    );
    assert_eq!(
        grays(gray8(3, 1, &[0, 1, 255]), stretched(0.0, 0.0)),
        vec![0, 255, 255]
    );
    assert_eq!(
        grays(gray8(3, 1, &[0, 1, 255]), stretched(f32::NAN, f32::NAN)),
        vec![0, 255, 255]
    );
    let mut table = [9u8; 256];
    table[7] = 70;
    let mut looked_up = stretched(0.2, 0.6);
    looked_up.set_look_up_table(&table);
    assert_eq!(grays(gray8(2, 1, &[7, 200]), looked_up), vec![70, 9]);
}

#[test]
fn intensities_of_16_bits_are_brought_down_to_8_bits() {
    let deep = Bitmap::create(2, 1, PixelType::Gray16, 4, vec![0x34, 0x12, 0xff, 0xff]).unwrap();
    let picture =
        compositor_do_multi_channel_composition(1, vec![deep], vec![channel(1.0, None, &[])])
            .unwrap();
    assert_eq!(pixels(picture), vec![0x12, 0x12, 0x12, 0xff, 0xff, 0xff]);
    let deep = Bitmap::create(3, 1, PixelType::Gray16, 6, vec![0xff, 0x01, 0x80, 0x00, 0x00, 0x40]).unwrap();
    assert_eq!(grays(deep, stretched(0.0, 1.0)), vec![2, 0, 64]);
    // The levels are 16384 and 49151.
    let deep = Bitmap::create(3, 1, PixelType::Gray16, 6, vec![0x00, 0x40, 0x00, 0x80, 0xff, 0xbf]).unwrap();
    assert_eq!(grays(deep, stretched(0.25, 0.75)), vec![0, 128, 255]);
    let mut table = vec![0u8; 65536];
    table[0x1234] = 77;
    let deep = Bitmap::create(1, 1, PixelType::Gray16, 2, vec![0x34, 0x12]).unwrap();
    let picture =
        compositor_do_multi_channel_composition(1, vec![deep], vec![channel(1.0, None, &table)])
            .unwrap();
    assert_eq!(pixels(picture), vec![77, 77, 77]);
}

#[test]
fn rows_with_padding_are_read_by_their_stride() {
    let padded = Bitmap::create(2, 2, PixelType::Gray8, 3, vec![1, 2, 99, 3, 4, 99]).unwrap();
    let picture =
        compositor_do_multi_channel_composition(1, vec![padded], vec![channel(1.0, None, &[])])
            .unwrap();
    assert_eq!(
        pixels(picture),
        vec![1, 1, 1, 2, 2, 2, 3, 3, 3, 4, 4, 4]
    );
}

#[test]
fn channels_that_do_not_go_together_are_refused() {
    let refused = |count: i32, bitmaps: Vec<Bitmap>, infos: Vec<CompositionChannelInfo>| {
        compositor_do_multi_channel_composition(count, bitmaps, infos).err()
    };
    assert_eq!(
        refused(
            2,
            vec![gray8(2, 1, &[1, 2]), gray8(1, 2, &[1, 2])],
            vec![channel(1.0, None, &[]), channel(1.0, None, &[])]
        ),
        Some(LibCZIApiError::InvalidArgument)
    );
    assert_eq!(
        refused(0, vec![], vec![]),
        Some(LibCZIApiError::InvalidArgument)
    );
    assert_eq!(
        refused(2, vec![gray8(1, 1, &[1])], vec![channel(1.0, None, &[])]),
        Some(LibCZIApiError::InvalidArgument)
    );
    assert_eq!(
        refused(
            1,
            vec![gray8(1, 1, &[1])],
            vec![channel(1.0, None, &[]), channel(1.0, None, &[])]
        ),
        Some(LibCZIApiError::InvalidArgument)
    );
    assert_eq!(
        refused(1, vec![gray8(1, 1, &[1])], vec![channel(1.0, None, &[0; 16])]),
        Some(LibCZIApiError::InvalidArgument)
    );
    let colour = Bitmap::create(1, 1, PixelType::Bgr24, 3, vec![1, 2, 3]).unwrap();
    assert_eq!(
        refused(1, vec![colour], vec![channel(1.0, None, &[])]),
        Some(LibCZIApiError::InvalidArgument)
    );
}

fn entry(scene: Option<i32>, w: i32, stored: i32) -> SubBlockDirectoryEntry {
    let coordinate = match scene {
        Some(s) => Coordinate::new(0b1_0000, [s, 0, 0, 0, 0, 0, 0, 0, 0]),
        None => Coordinate::new(0, [0; 9]),
    };
    SubBlockDirectoryEntry {
        coordinate,
        logical_rect: IntRect::new(0, 0, w, w),
        physical_size: IntSize::new(stored, stored),
        pixel_type: 0,
        compression_mode_raw: 0,
        m_index_valid: false,
        m_index: 0,
        file_position: 0,
    }
}

#[test]
fn the_layers_of_the_pyramid_are_counted_by_scene() {
    let entries = vec![
        entry(Some(1), 100, 100),
        entry(Some(1), 100, 50),
        entry(Some(0), 100, 100),
        entry(Some(1), 64, 64),
        entry(None, 90, 30),
        entry(Some(1), 200, 100),
        entry(Some(0), 10, 0),
    ];
    let layer = |scene_index: Option<i32>, minification_factor: u32, count: i32| {
        PyramidLayerStatistics { scene_index, minification_factor, count }
    };
    assert_eq!(
        pyramid_statistics(&entries),
        vec![
            layer(Some(1), 1, 2),
            layer(Some(1), 2, 2),
            layer(Some(0), 1, 2),
            layer(None, 3, 1),
        ]
    );
    assert_eq!(pyramid_statistics(&[]), vec![]);
    let reader = CziReader::create().unwrap();
    assert_eq!(
        reader.get_pyramid_statistics().err(),
        Some(LibCZIApiError::InvalidArgument)
    );
    assert_eq!(
        reader.get_pyramid_layers().err(),
        Some(LibCZIApiError::InvalidArgument)
    );
}

#[test]
fn the_layers_of_the_pyramid_are_told_as_json() {
    let layer = |scene_index: Option<i32>, minification_factor: u32, count: i32| {
        PyramidLayerStatistics { scene_index, minification_factor, count }
    };
    assert_eq!(pyramid_statistics_json(&[]), "{\"scenePyramidStatistics\":{}}");
    assert_eq!(
        pyramid_statistics_json(&[layer(Some(0), 1, 4)]),
        "{\"scenePyramidStatistics\":{\"0\":[{\"layerInfo\":{\"minificationFactor\":1,\"pyramidLayerNo\":0},\"count\":4}]}}"
    );
    assert_eq!(
        pyramid_statistics_json(&[
            layer(Some(1), 1, 2),
            layer(Some(1), 2, 20),
            layer(Some(-3), 1, 105),
            layer(None, 3, 1),
            layer(Some(1), 8, 1),
        ]),
        format!(
            "{{\"scenePyramidStatistics\":{{{},{},{}}}}}",
            "\"1\":[{\"layerInfo\":{\"minificationFactor\":1,\"pyramidLayerNo\":0},\"count\":2},\
             {\"layerInfo\":{\"minificationFactor\":2,\"pyramidLayerNo\":1},\"count\":20},\
             {\"layerInfo\":{\"minificationFactor\":8,\"pyramidLayerNo\":3},\"count\":1}]",
            "\"-3\":[{\"layerInfo\":{\"minificationFactor\":1,\"pyramidLayerNo\":0},\"count\":105}]",
            "\"2147483647\":[{\"layerInfo\":{\"minificationFactor\":3,\"pyramidLayerNo\":1},\"count\":1}]",
        )
    );
    for (factor, number) in [(0, 0), (1, 0), (2, 1), (3, 1), (4, 2), (7, 2), (8, 3), (u32::MAX, 31)] {
        assert_eq!(layer_number_of(factor), number);
    }
}

#[test]
fn a_table_is_written_out_for_a_channel_of_the_display_settings() {
    let settings = DisplaySettings {
        channels: vec![
            ChannelDisplaySettings {
                channel_id: 3,
                is_enabled: true,
                weight: 0.5f32.to_bits(),
                enable_tinting: true,
                tinting_color_r: 255,
                tinting_color_g: 128,
                tinting_color_b: 0,
                black_point: 0.2f32.to_bits(),
                white_point: 0.6f32.to_bits(),
            },
            ChannelDisplaySettings {
                channel_id: 5,
                is_enabled: false,
                weight: 1.0f32.to_bits(),
                enable_tinting: false,
                tinting_color_r: 1,
                tinting_color_g: 2,
                tinting_color_b: 3,
                black_point: 0.25f32.to_bits(),
                white_point: 0.75f32.to_bits(),
            },
        ],
    };
    let info = settings
        .compositor_fill_out_composition_channel_info_interop(3, false)
        .unwrap();
    assert_eq!(info.get_weight(), 0.5f32.to_bits());
    assert_eq!(info.get_enable_tinting(), 1);
    assert_eq!(
        (info.get_tinting_color_r(), info.get_tinting_color_g(), info.get_tinting_color_b()),
        (255, 128, 0)
    );
    assert_eq!(info.get_black_point(), 0.2f32.to_bits());
    assert_eq!(info.get_white_point(), 0.6f32.to_bits());
    assert_eq!(info.get_look_up_table_element_count(), 256);
    let table = info.get_look_up_table();
    assert_eq!(table.len(), 256);
    for (intensity, value) in [(0, 0), (51, 0), (52, 3), (102, 128), (152, 253), (153, 255), (255, 255)] {
        assert_eq!(table[intensity], value);
    }
    let row = [0, 50, 51, 52, 102, 152, 153, 200, 255];
    let with_table =
        compositor_do_multi_channel_composition(1, vec![gray8(9, 1, &row)], vec![info]).unwrap();
    let mut without = settings
        .compositor_fill_out_composition_channel_info_interop(3, false)
        .unwrap();
    without.set_look_up_table(&[]);
    let without_table =
        compositor_do_multi_channel_composition(1, vec![gray8(9, 1, &row)], vec![without]).unwrap();
    assert_eq!(pixels(with_table), pixels(without_table));

    let deep = settings
        .compositor_fill_out_composition_channel_info_interop(5, true)
        .unwrap();
    assert_eq!(deep.get_enable_tinting(), 0);
    assert_eq!(deep.get_look_up_table_element_count(), 65536);
    let table = deep.get_look_up_table();
    assert_eq!(table.len(), 65536);
    assert_eq!((table[16384], table[32768], table[49151], table[65535]), (0, 128, 255, 255));
    assert_eq!(
        settings
            .compositor_fill_out_composition_channel_info_interop(4, true)
            .err(),
        Some(LibCZIApiError::InvalidArgument)
    );
}
