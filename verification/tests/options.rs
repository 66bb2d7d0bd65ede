use libczi::json::{find_member, read_object, JsonValue};
use libczi::reader::CziReader;
use libczi::stream::{InputStream, OutputStream, ReaderOpenInfo};
use libczi::writer::{
    parse_guid, parse_writer_options, parse_writer_parameters, CziWriter, WriterOptions,
    WriterState,
};
use libczi::LibCZIApiError;

#[test]
fn an_object_is_read_member_by_member() {
    let members =
        read_object(b" { \"a\" : true ,\n\t\"b\":-12,\"name\" : \"two words\", \"a\": false }\r\n")
            .unwrap();
    assert_eq!(members.len(), 4);
    assert_eq!(members[0].key, b"a".to_vec());
    assert!(matches!(members[0].value, JsonValue::Bool(true)));
    assert!(matches!(members[1].value, JsonValue::Number(-12)));
    assert!(matches!(&members[2].value, JsonValue::Text(text) if text == b"two words"));
    assert_eq!(find_member(&members, b"a"), Some(0));
    assert_eq!(find_member(&members, b"b"), Some(1));
    assert_eq!(find_member(&members, b"name"), Some(2));
    assert_eq!(find_member(&members, b"c"), None);
    assert_eq!(read_object(b"{}").unwrap().len(), 0);
    assert_eq!(read_object(b"  {  }  ").unwrap().len(), 0);
}

#[test]
fn numbers_are_64_bit_numbers() {
    let number = |text: &str| match read_object(text.as_bytes()) {
        Ok(members) => match members[0].value {
            JsonValue::Number(found) => Some(found),
            _ => None,
        },
        Err(_) => None,
    };
    assert_eq!(number("{\"n\": 0}"), Some(0));
    assert_eq!(number("{\"n\": 007}"), Some(7));
    assert_eq!(number("{\"n\": -0}"), Some(0));
    assert_eq!(number("{\"n\": 9223372036854775807}"), Some(i64::MAX));
    assert_eq!(number("{\"n\": -9223372036854775808}"), Some(i64::MIN));
    assert_eq!(number("{\"n\": 9223372036854775808}"), None);
    assert_eq!(number("{\"n\": -9223372036854775809}"), None);
    assert_eq!(number("{\"n\": 99999999999999999999999999999999999999999}"), None);
    assert_eq!(number("{\"n\": -}"), None);
    assert_eq!(number("{\"n\": 1.5}"), None);
    assert_eq!(number("{\"n\": +1}"), None);
}

#[test]
fn what_is_no_object_is_refused() {
    for text in [
        "",
        "   ",
        "{",
        "}",
        "[]",
        "{\"a\"}",
        "{\"a\":}",
        "{\"a\":true,}",
        "{\"a\":true \"b\":false}",
        "{\"a\":tru}",
        "{\"a\":truely}",
        "{\"a\":falsy}",
        "{\"a\":null}",
        "{a:true}",
        "{\"a\":\"open}",
        "{\"a\":\"back\\slash\"}",
        "{\"a\":\"line\nbreak\"}",
        "{\"a\":true} x",
        "{\"a\":{}}",
        "{,}",
    ] {
        assert_eq!(
            read_object(text.as_bytes()).err(),
            Some(LibCZIApiError::InvalidArgument),
            "{}",
            text
        );
    }
}

#[test]
fn the_options_of_a_writer_are_stated_as_json() {
    assert_eq!(
        parse_writer_options("{\"allow_duplicate_subblocks\" : true}"),
        Ok(WriterOptions { allow_duplicate_subblocks: true })
    );
    assert_eq!(
        parse_writer_options("{\"allow_duplicate_subblocks\":false}"),
        Ok(WriterOptions { allow_duplicate_subblocks: false })
    );
    assert_eq!(
        parse_writer_options("{}"),
        Ok(WriterOptions { allow_duplicate_subblocks: false })
    );
    assert_eq!(
        parse_writer_options("{\"other\": 1, \"allow_duplicate_subblocks\": true}"),
        Ok(WriterOptions { allow_duplicate_subblocks: true })
    );
    assert_eq!(
        parse_writer_options("{\"allow_duplicate_subblocks\": 1}"),
        Err(LibCZIApiError::InvalidArgument)
    );
    assert_eq!(
        parse_writer_options("allow_duplicate_subblocks"),
        Err(LibCZIApiError::InvalidArgument)
    );
    assert!(CziWriter::create("{\"allow_duplicate_subblocks\": true}").is_ok());
    assert_eq!(
        CziWriter::create("nothing").err(),
        Some(LibCZIApiError::InvalidArgument)
    );
}

#[test]
fn an_identifier_is_two_digits_for_each_byte() {
    assert_eq!(
        parse_guid(b"123e4567-e89b-12d3-a456-426614174000"),
        Some([
            0x12, 0x3e, 0x45, 0x67, 0xe8, 0x9b, 0x12, 0xd3, 0xa4, 0x56, 0x42, 0x66, 0x14, 0x17,
            0x40, 0x00
        ])
    );
    assert_eq!(
        parse_guid(b"FFFFFFFF-ffff-0000-AbCd-0123456789aB"),
        Some([
            0xff, 0xff, 0xff, 0xff, 0xff, 0xff, 0x00, 0x00, 0xab, 0xcd, 0x01, 0x23, 0x45, 0x67,
            0x89, 0xab
        ])
    );
    for wrong in [
        &b"123e4567-e89b-12d3-a456-42661417400"[..],
        b"123e4567-e89b-12d3-a456-4266141740000",
        b"123e4567e-89b-12d3-a456-426614174000",
        b"123e4567-e89b-12d3-a456-42661417400g",
        b"123e4567_e89b_12d3_a456_426614174000",
        b"",
    ] {
        assert_eq!(parse_guid(wrong), None);
    }
}

#[test]
fn the_parameters_of_a_writer_are_stated_as_json() {
    let parameters = parse_writer_parameters(
        "{\n\"file_guid\" : \"123e4567-e89b-12d3-a456-426614174000\",\n\
         \"reserved_size_attachments_directory\" : 4096,\n\
         \"reserved_size_metadata_segment\" : 50000,\n\
         \"minimum_m_index\" : 0,\n\"maximum_m_index\" : 100\n}",
    )
    .unwrap();
    assert_eq!(parameters.file_guid[0], 0x12);
    assert_eq!(parameters.file_guid[15], 0x00);
    assert_eq!(parameters.reserved_size_attachments_directory, 4096);
    assert_eq!(parameters.reserved_size_metadata_segment, 50000);
    assert_eq!(parameters.minimum_m_index, 0);
    assert_eq!(parameters.maximum_m_index, 100);
    let none = parse_writer_parameters("{}").unwrap();
    assert_eq!(none.file_guid, [0; 16]);
    assert_eq!(none.reserved_size_attachments_directory, 0);
    assert_eq!(none.reserved_size_metadata_segment, 0);
    assert_eq!(none.minimum_m_index, 0);
    assert_eq!(none.maximum_m_index, -1);
    for wrong in [
        "{\"file_guid\": 7}",
        "{\"file_guid\": \"123\"}",
        "{\"reserved_size_metadata_segment\": -1}",
        "{\"reserved_size_metadata_segment\": 4294967296}",
        "{\"reserved_size_attachments_directory\": \"4096\"}",
        "{\"minimum_m_index\": 2147483648}",
        "{\"maximum_m_index\": true}",
        "[]",
    ] {
        assert_eq!(
            parse_writer_parameters(wrong).err(),
            Some(LibCZIApiError::InvalidArgument)
        );
    }
    assert_eq!(
        parse_writer_parameters("{\"reserved_size_metadata_segment\": 4294967295}")
            .unwrap()
            .reserved_size_metadata_segment,
        u32::MAX
    );
}

#[test]
fn a_writer_is_made_and_bound_with_json_texts() {
    let mut writer = CziWriter::create("{\"allow_duplicate_subblocks\": false}").unwrap();
    assert_eq!(
        writer.init(OutputStream::new(), "{\"file_guid\": \"oops\"}"),
        Err(LibCZIApiError::InvalidArgument)
    );
    assert_eq!(writer.state(), WriterState::Created);
    assert_eq!(
        writer.init(
            OutputStream::new(),
            "{\"file_guid\": \"00112233-4455-6677-8899-aabbccddeeff\", \
             \"reserved_size_metadata_segment\": 1000}"
        ),
        Ok(())
    );
    assert_eq!(writer.state(), WriterState::Initialized);
    assert_eq!(writer.stream().size(), 544 + 32 + 1000);
    assert_eq!(writer.close(), Ok(()));
    let stream = InputStream::from_bytes(writer.release().unwrap().into_bytes());
    let mut reader = CziReader::create().unwrap();
    assert_eq!(reader.open(ReaderOpenInfo::new(&stream)), Ok(()));
    assert_eq!(
        reader.get_file_header_info().unwrap().get_guid(),
        [
            0x00, 0x11, 0x22, 0x33, 0x44, 0x55, 0x66, 0x77, 0x88, 0x99, 0xaa, 0xbb, 0xcc, 0xdd,
            0xee, 0xff
        ]
    );
}
