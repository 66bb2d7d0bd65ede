use libczi::accessor::{
    AccessorOptions, ChannelDisplaySettings, CompositionChannelInfo, DisplaySettings,
};
use libczi::attachment::{AddAttachmentInfo, AttachmentInfo};
use libczi::coordinate::Coordinate;
use libczi::geometry::{IntRect, IntSize};
use libczi::header::FileHeaderInfo;
use libczi::metadata::{MetadataAsXml, ScalingInfo, WriteMetadataInfo};
use libczi::pixel::PixelType;
use libczi::stream::{
    allocate_memory, free, ExternalInputStreamStruct, ExternalOutputStreamStruct,
    ExternalStreamErrorInfo, InputStream, InputStreamClassInfo, MemoryAllocation, OutputStream,
    ReaderOpenInfo,
};
use libczi::subblock::{AddSubBlockInfo, SubBlockInfo, NO_M_INDEX};
use libczi::version::{LibCZIBuildInformation, LibCZIVersionInfo};
use libczi::{CziError, LibCZIApiError};

#[test]
fn test_lib_czi_build_information() {
    let build_info = LibCZIBuildInformation::get().unwrap();
    println!(
        "compiler information: {:?}",
        build_info.get_compiler_information()
    );
    println!("repository url: {:?}", build_info.get_repository_url());
    println!(
        "repository branch: {:?}",
        build_info.get_repository_branch()
    );
    println!("repository tag: {:?}", build_info.get_repository_tag());
}

#[test]
fn the_engine_says_how_it_was_built() {
    let build_info = LibCZIBuildInformation::get().unwrap();
    assert_eq!(build_info.get_compiler_information(), Ok("rustc"));
    assert_eq!(build_info.get_repository_url(), Ok(""));
    assert_eq!(build_info.get_repository_branch(), Ok(""));
    assert_eq!(build_info.get_repository_tag(), Ok(""));
    let copy = build_info.clone();
    assert_eq!(copy.compiler_identification, b"rustc".to_vec());
}

#[test]
fn texts_that_are_no_utf8_are_refused() {
    let information = LibCZIBuildInformation {
        compiler_identification: vec![0xff, 0xfe],
        repository_url: "https://example.org/r\u{e9}po".as_bytes().to_vec(),
        repository_branch: vec![0xc3],
        repository_tag: b"v1.2".to_vec(),
    };
    assert_eq!(
        information.get_compiler_information(),
        Err(CziError::InvalidUtf8)
    );
    assert_eq!(
        information.get_repository_url(),
        Ok("https://example.org/r\u{e9}po")
    );
    assert_eq!(information.get_repository_branch(), Err(CziError::InvalidUtf8));
    assert_eq!(information.get_repository_tag(), Ok("v1.2"));
    let class = InputStreamClassInfo {
        name: b"curl".to_vec(),
        description: vec![0x80],
    };
    assert_eq!(class.get_name(), Ok("curl"));
    assert_eq!(class.get_description(), Err(CziError::InvalidUtf8));
    assert_eq!(class.clone().name, b"curl".to_vec());
    let xml = MetadataAsXml { data: b"<a/>".to_vec() };
    assert_eq!(xml.get_data(), Ok("<a/>".to_string()));
    assert_eq!(xml.clone().data, b"<a/>".to_vec());
    let broken = MetadataAsXml { data: vec![b'<', 0xff] };
    assert_eq!(broken.get_data(), Err(CziError::InvalidUtf8));
}

#[test]
fn the_version_of_the_engine() {
    let version = LibCZIVersionInfo::get_lib_czi_version_info().unwrap();
    assert_eq!(version.get_major(), 0);
    assert_eq!(version.get_minor(), 1);
    assert_eq!(version.get_patch(), 0);
    assert_eq!(version.get_tweak(), 0);
    let other = LibCZIVersionInfo { major: 1, minor: 2, patch: 3, tweak: 4 };
    assert_eq!(
        (other.get_major(), other.get_minor(), other.get_patch(), other.get_tweak()),
        (1, 2, 3, 4)
    );
}

#[test]
fn the_name_of_an_attachment_ends_at_the_first_zero() {
    let mut name = [0u8; 255];
    name[..5].copy_from_slice(b"Label");
    name[6] = b'x';
    let mut info = AttachmentInfo {
        guid: [7; 16],
        content_file_type: *b"CZTXT\0\0\0\0",
        name,
        name_overflow: false,
        name_in_case_of_overflow: Vec::new(),
    };
    assert_eq!(info.get_name(), Ok("Label".to_string()));
    assert_eq!(info.get_guid(), [7; 16]);
    assert_eq!(info.get_content_file_type(), *b"CZTXT\0\0\0\0");
    assert!(!info.get_name_overflow());
    assert_eq!(info.get_name_in_case_of_overflow(), Ok(String::new()));
    info.name = [b'a'; 255];
    assert_eq!(info.get_name(), Err(CziError::MissingTerminator));
    info.name[3] = 0;
    info.name[1] = 0xff;
    assert_eq!(info.get_name(), Err(CziError::InvalidUtf8));
    info.name[0] = 0;
    assert_eq!(info.get_name(), Ok(String::new()));
    info.name_overflow = true;
    info.name_in_case_of_overflow = "a very long n\u{e4}me".as_bytes().to_vec();
    assert!(info.get_name_overflow());
    assert_eq!(
        info.get_name_in_case_of_overflow(),
        Ok("a very long n\u{e4}me".to_string())
    );
    info.name_in_case_of_overflow = vec![0xe4];
    assert_eq!(info.get_name_in_case_of_overflow(), Err(CziError::InvalidUtf8));
    assert_eq!(info.clone().name_in_case_of_overflow, vec![0xe4]);
}

#[test]
fn what_is_known_of_a_sub_block_keeps_what_it_is_given() {
    let coordinate = Coordinate::new(1, [3, 0, 0, 0, 0, 0, 0, 0, 0]);
    let mut info = SubBlockInfo::new(
        2,
        PixelType::Gray16,
        coordinate,
        IntRect::new(1, 2, 30, 40),
        IntSize::new(15, 20),
        7,
    );
    assert_eq!(info.get_compression_mode_raw(), 2);
    assert_eq!(info.get_pixel_type(), Ok(PixelType::Gray16));
    assert_eq!(info.get_coordinate().get_value()[0], 3);
    assert_eq!(info.get_logical_rect(), IntRect::new(1, 2, 30, 40));
    assert_eq!(info.get_physical_size(), IntSize::new(15, 20));
    assert_eq!(info.get_m_index(), 7);
    assert!(info.has_m_index());
    assert!(!info.is_layer0());
    info.set_compression_mode_raw(0);
    info.set_pixel_type(PixelType::Bgr24);
    info.set_coordinate(Coordinate::new(2, [9; 9]));
    info.set_logical_rect(IntRect::new(0, 0, 8, 8));
    info.set_physical_size(IntSize::new(8, 8));
    info.set_m_index(NO_M_INDEX);
    assert_eq!(info.get_compression_mode_raw(), 0);
    assert_eq!(info.get_pixel_type(), Ok(PixelType::Bgr24));
    assert_eq!(info.get_coordinate().get_dimensions_valid(), 2);
    assert_eq!(info.get_logical_rect(), IntRect::new(0, 0, 8, 8));
    assert_eq!(info.get_physical_size(), IntSize::new(8, 8));
    assert!(!info.has_m_index());
    assert!(info.is_layer0());
    info.pixel_type = 6;
    assert_eq!(info.get_pixel_type(), Err(CziError::UnknownPixelType(6)));
}

#[test]
fn a_sub_block_to_add_keeps_what_it_is_given() {
    let coordinate = Coordinate::new(1, [3, 0, 0, 0, 0, 0, 0, 0, 0]);
    let mut info = AddSubBlockInfo::new(
        coordinate,
        1,
        4,
        10,
        20,
        30,
        40,
        15,
        20,
        PixelType::Gray8,
        0,
        3,
        &[1, 2, 3],
        15,
        2,
        &[4, 5],
        1,
        &[6],
    );
    assert_eq!(info.get_coordinate().get_dimensions_valid(), 1);
    assert_eq!(info.get_m_index_valid(), 1);
    assert_eq!(info.get_m_index(), 4);
    assert_eq!((info.get_x(), info.get_y()), (10, 20));
    assert_eq!((info.get_logical_width(), info.get_logical_height()), (30, 40));
    assert_eq!((info.get_physical_width(), info.get_physical_height()), (15, 20));
    assert_eq!(info.get_pixel_type(), Ok(PixelType::Gray8));
    assert_eq!(info.get_compression_mode_raw(), 0);
    assert_eq!(info.get_stride(), 15);
    assert_eq!((info.get_size_data(), info.get_data()), (3, vec![1, 2, 3]));
    assert_eq!((info.get_size_metadata(), info.get_metadata()), (2, vec![4, 5]));
    assert_eq!((info.get_size_attachment(), info.get_attachment()), (1, vec![6]));
    info.set_coordinate(Coordinate::new(4, [0; 9]));
    info.set_m_index_valid(0);
    info.set_m_index(-1);
    info.set_x(1);
    info.set_y(2);
    info.set_logical_width(3);
    info.set_logical_height(4);
    info.set_physical_width(5);
    info.set_physical_height(6);
    info.set_pixel_type(PixelType::Bgr48);
    info.set_compression_mode_raw(9);
    info.set_stride(64);
    info.set_data(&[9; 10]);
    info.set_metadata(&[]);
    info.set_attachment(&[1, 2]);
    assert_eq!(info.get_coordinate().get_dimensions_valid(), 4);
    assert_eq!(info.get_m_index_valid(), 0);
    assert_eq!(info.get_m_index(), -1);
    assert_eq!((info.get_x(), info.get_y()), (1, 2));
    assert_eq!((info.get_logical_width(), info.get_logical_height()), (3, 4));
    assert_eq!((info.get_physical_width(), info.get_physical_height()), (5, 6));
    assert_eq!(info.get_pixel_type(), Ok(PixelType::Bgr48));
    assert_eq!(info.get_compression_mode_raw(), 9);
    assert_eq!(info.get_stride(), 64);
    assert_eq!((info.get_size_data(), info.get_data()), (10, vec![9; 10]));
    assert_eq!((info.get_size_metadata(), info.get_metadata()), (0, vec![]));
    assert_eq!((info.get_size_attachment(), info.get_attachment()), (2, vec![1, 2]));
    info.set_size_data(7);
    info.set_size_metadata(8);
    info.set_size_attachment(9);
    assert_eq!(info.get_size_data(), 7);
    assert_eq!(info.get_size_metadata(), 8);
    assert_eq!(info.get_size_attachment(), 9);
    assert_eq!(info.get_data(), vec![9; 10]);
    let copy = info.clone();
    assert_eq!(copy.get_data(), info.get_data());
    assert_eq!(copy.get_stride(), 64);
}

#[test]
fn an_attachment_and_metadata_to_add_keep_what_they_are_given() {
    let mut attachment = AddAttachmentInfo::new([1; 16], [2; 8], [3; 80], 2, &[4, 5]);
    assert_eq!(attachment.get_guid(), [1; 16]);
    assert_eq!(attachment.get_content_file_type(), [2; 8]);
    assert_eq!(attachment.get_name(), [3; 80]);
    assert_eq!(attachment.get_size_attachment_data(), 2);
    assert_eq!(attachment.get_attachment_data(), vec![4, 5]);
    attachment.set_guid([9; 16]);
    attachment.set_content_file_type([8; 8]);
    attachment.set_name([7; 80]);
    attachment.set_attachment_data(&[1, 2, 3]);
    assert_eq!(attachment.get_guid(), [9; 16]);
    assert_eq!(attachment.get_content_file_type(), [8; 8]);
    assert_eq!(attachment.get_name(), [7; 80]);
    assert_eq!(attachment.get_size_attachment_data(), 3);
    assert_eq!(attachment.get_attachment_data(), vec![1, 2, 3]);
    attachment.set_size_attachment_data(1);
    assert_eq!(attachment.get_size_attachment_data(), 1);
    assert_eq!(attachment.clone().get_attachment_data(), vec![1, 2, 3]);
    let mut metadata = WriteMetadataInfo::new(3, b"<a>");
    assert_eq!(metadata.get_size_metadata(), 3);
    assert_eq!(metadata.get_metadata(), b"<a>".to_vec());
    metadata.set_metadata(b"<abc/>");
    assert_eq!(metadata.get_size_metadata(), 6);
    assert_eq!(metadata.get_metadata(), b"<abc/>".to_vec());
    metadata.set_size_metadata(2);
    assert_eq!(metadata.get_size_metadata(), 2);
    assert_eq!(metadata.clone().get_metadata(), b"<abc/>".to_vec());
}

#[test]
fn the_file_header_keeps_what_it_is_given() {
    let mut header = FileHeaderInfo::new([5; 16], 1, 2);
    assert_eq!(header.get_guid(), [5; 16]);
    assert_eq!(header.get_major_version(), 1);
    assert_eq!(header.get_minor_version(), 2);
    header.set_guid([6; 16]);
    header.set_major_version(3);
    header.set_minor_version(4);
    assert_eq!(header.get_guid(), [6; 16]);
    assert_eq!(header.get_major_version(), 3);
    assert_eq!(header.get_minor_version(), 4);
}

#[test]
fn accessor_options_keep_what_they_are_given() {
    let mut options = AccessorOptions::new(
        0.25f32.to_bits(),
        0.5f32.to_bits(),
        0.75f32.to_bits(),
        true,
        false,
        "{\"a\":1}",
    )
    .unwrap();
    assert_eq!(f32::from_bits(options.get_background_color_r()), 0.25);
    assert_eq!(f32::from_bits(options.get_background_color_g()), 0.5);
    assert_eq!(f32::from_bits(options.get_background_color_b()), 0.75);
    assert!(options.get_sort_by_m());
    assert!(!options.get_use_visibility_check_optimization());
    assert_eq!(options.get_additional_parameters(), Ok("{\"a\":1}".to_string()));
    options.set_background_color_r(1.0f32.to_bits());
    options.set_background_color_g(0.0f32.to_bits());
    options.set_background_color_b(0.125f32.to_bits());
    options.set_sort_by_m(false);
    options.set_use_visibility_check_optimization(true);
    assert_eq!(options.set_additional_parameters("{}"), Ok(()));
    assert_eq!(f32::from_bits(options.get_background_color_r()), 1.0);
    assert_eq!(f32::from_bits(options.get_background_color_g()), 0.0);
    assert_eq!(f32::from_bits(options.get_background_color_b()), 0.125);
    assert!(!options.get_sort_by_m());
    assert!(options.get_use_visibility_check_optimization());
    assert_eq!(options.get_additional_parameters(), Ok("{}".to_string()));
    assert_eq!(
        options.set_additional_parameters("a\0b"),
        Err(CziError::InteriorNul)
    );
    assert_eq!(options.get_additional_parameters(), Ok("{}".to_string()));
    assert_eq!(
        AccessorOptions::new(0, 0, 0, true, true, "\0").err(),
        Some(CziError::InteriorNul)
    );
    assert!(options.clone().get_use_visibility_check_optimization());
}

#[test]
fn what_is_known_of_a_channel_keeps_what_it_is_given() {
    let mut info = CompositionChannelInfo::new(
        0.5f32.to_bits(),
        1,
        10,
        20,
        30,
        0.1f32.to_bits(),
        0.9f32.to_bits(),
        4,
        &[0, 85, 170, 255],
    );
    assert_eq!(f32::from_bits(info.get_weight()), 0.5);
    assert_eq!(info.get_enable_tinting(), 1);
    assert_eq!(
        (info.get_tinting_color_r(), info.get_tinting_color_g(), info.get_tinting_color_b()),
        (10, 20, 30)
    );
    assert_eq!(f32::from_bits(info.get_black_point()), 0.1);
    assert_eq!(f32::from_bits(info.get_white_point()), 0.9);
    assert_eq!(info.get_look_up_table_element_count(), 4);
    assert_eq!(info.get_look_up_table(), vec![0, 85, 170, 255]);
    info.set_weight(2.0f32.to_bits());
    info.set_enable_tinting(0);
    info.set_tinting_color_r(1);
    info.set_tinting_color_g(2);
    info.set_tinting_color_b(3);
    info.set_black_point(0.0f32.to_bits());
    info.set_white_point(1.0f32.to_bits());
    info.set_look_up_table(&[5, 6]);
    assert_eq!(f32::from_bits(info.get_weight()), 2.0);
    assert_eq!(info.get_enable_tinting(), 0);
    assert_eq!(
        (info.get_tinting_color_r(), info.get_tinting_color_g(), info.get_tinting_color_b()),
        (1, 2, 3)
    );
    assert_eq!(f32::from_bits(info.get_black_point()), 0.0);
    assert_eq!(f32::from_bits(info.get_white_point()), 1.0);
    assert_eq!(info.get_look_up_table_element_count(), 2);
    assert_eq!(info.get_look_up_table(), vec![5, 6]);
    info.set_look_up_table_element_count(9);
    assert_eq!(info.get_look_up_table_element_count(), 9);
    assert_eq!(info.clone().get_look_up_table(), vec![5, 6]);
}

#[test]
fn the_scaling_keeps_what_it_is_given() {
    let mut scaling = ScalingInfo::new(
        1e-6f64.to_bits(),
        2e-6f64.to_bits(),
        3e-6f64.to_bits(),
    );
    assert_eq!(f64::from_bits(scaling.get_scale_x()), 1e-6);
    assert_eq!(f64::from_bits(scaling.get_scale_y()), 2e-6);
    assert_eq!(f64::from_bits(scaling.get_scale_z()), 3e-6);
    scaling.set_scale_x(0.5f64.to_bits());
    scaling.set_scale_y(0.25f64.to_bits());
    scaling.set_scale_z(0.125f64.to_bits());
    assert_eq!(f64::from_bits(scaling.get_scale_x()), 0.5);
    assert_eq!(f64::from_bits(scaling.get_scale_y()), 0.25);
    assert_eq!(f64::from_bits(scaling.get_scale_z()), 0.125);
}

#[test]
fn the_tokens_of_a_stream_of_the_caller_keep_what_they_are_given() {
    let mut input = ExternalInputStreamStruct { opaque_handle1: 1, opaque_handle2: 2 };
    assert_eq!((input.get_opaque_handle1(), input.get_opaque_handle2()), (1, 2));
    input.set_opaque_handle1(u64::MAX);
    input.set_opaque_handle2(7);
    assert_eq!((input.get_opaque_handle1(), input.get_opaque_handle2()), (u64::MAX, 7));
    let mut output = ExternalOutputStreamStruct { opaque_handle1: 3, opaque_handle2: 4 };
    assert_eq!((output.get_opaque_handle1(), output.get_opaque_handle2()), (3, 4));
    output.set_opaque_handle1(5);
    output.set_opaque_handle2(6);
    assert_eq!((output.get_opaque_handle1(), output.get_opaque_handle2()), (5, 6));
    let error = ExternalStreamErrorInfo {
        error_code: 12,
        error_message: MemoryAllocation { data: b"disk is gone".to_vec() },
    };
    assert_eq!(error.get_error_code(), 12);
    assert_eq!(error.get_error_message().data, b"disk is gone".to_vec());
    assert_eq!(error.clone().error_message.data, b"disk is gone".to_vec());
}

#[test]
fn a_reader_is_opened_on_a_copy_of_the_stream() {
    let stream = InputStream::from_bytes(vec![1, 2, 3]);
    let open_info = ReaderOpenInfo::new(&stream);
    assert_eq!(open_info.get_stream().bytes(), &[1, 2, 3]);
    assert_eq!(open_info.clone().get_stream().size(), 3);
    assert_eq!(stream.clone().bytes(), &[1, 2, 3]);
    assert_eq!(stream.release(), Ok(()));
    let output = OutputStream::new();
    assert_eq!(output.clone().size(), 0);
    assert_eq!(output.release(), Ok(()));
}

#[test]
fn memory_that_is_handed_out_is_filled_with_zeros() {
    let block = allocate_memory(5).unwrap();
    assert_eq!(block.data, vec![0; 5]);
    assert_eq!(block.clone().data.len(), 5);
    free(block);
    assert_eq!(allocate_memory(0).unwrap().data, Vec::<u8>::new());
}

#[test]
fn the_settings_of_a_channel_are_found_by_its_number() {
    let channel = |channel_id: i32, red: u8| ChannelDisplaySettings {
        channel_id,
        is_enabled: true,
        weight: 1.0f32.to_bits(),
        enable_tinting: true,
        tinting_color_r: red,
        tinting_color_g: 0,
        tinting_color_b: 0,
        black_point: 0.0f32.to_bits(),
        white_point: 1.0f32.to_bits(),
    };
    let settings = DisplaySettings {
        channels: vec![channel(0, 10), channel(2, 20), channel(2, 30)],
    };
    assert_eq!(
        settings.get_channel_display_settings(0).unwrap().tinting_color_r,
        10
    );
    assert_eq!(
        settings.get_channel_display_settings(2).unwrap().tinting_color_r,
        20
    );
    assert_eq!(
        settings.get_channel_display_settings(1).err(),
        Some(LibCZIApiError::InvalidArgument)
    );
    assert_eq!(settings.clone().channels.len(), 3);
    assert_eq!(channel(0, 0).release(), Ok(()));
    assert_eq!(settings.release(), Ok(()));
}
