use libczi::accessor::{ChannelDisplaySettings, DisplaySettings};
use libczi::attachment::AddAttachmentInfo;
use libczi::document::{
    append_quoted, general_document_info, is_plain_number_text, read_colour, scaling_text, Axis,
};
use libczi::metadata::WriteMetadataInfo;
use libczi::reader::CziReader;
use libczi::stream::{InputStream, OutputStream, ReaderOpenInfo};
use libczi::writer::{CziWriter, WriterOptions, WriterParameters};
use libczi::xml::{find_element_text, read_piece, PieceKind, Step};
use libczi::LibCZIApiError;

const SAMPLE: &str = "<?xml version=\"1.0\" encoding=\"utf-8\"?>\n\
<ImageDocument>\n\
  <!-- a comment with <tags> in it -->\n\
  <Metadata>\n\
    <Experiment><Name>not this</Name></Experiment>\n\
    <Information>\n\
      <Image><Name>nor this</Name></Image>\n\
      <Document>\n\
        <Name>Sample &amp; co</Name>\n\
        <Title>A \"title\"</Title>\n\
        <UserName/>\n\
        <Description><![CDATA[<b>bold</b>]]> text</Description>\n\
        <Rating>4</Rating>\n\
        <CreationDate>2024-01-02T03:04:05</CreationDate>\n\
      </Document>\n\
    </Information>\n\
    <Scaling><Items>\n\
      <Distance Id=\"X\"><Value>1e-07</Value></Distance>\n\
      <Distance Name='second' Id = 'Y'><Value>2.5e-07</Value><Unit>um</Unit></Distance>\n\
    </Items></Scaling>\n\
  </Metadata>\n\
</ImageDocument>\n";

fn text_at(text: &str, names: &[&str]) -> Result<Option<String>, LibCZIApiError> {
    let path: Vec<Step> = names.iter().map(|name| Step::to(name)).collect();
    find_element_text(text.as_bytes(), &path)
        .map(|found| found.map(|bytes| String::from_utf8(bytes).unwrap()))
}

fn some(text: &str) -> Result<Option<String>, LibCZIApiError> {
    Ok(Some(text.to_string()))
}

#[test]
fn an_xml_text_is_read_piece_by_piece() {
    let text = b"<a x='>'>t&lt;<!--c--><![CDATA[<]]></a ><e/><?p ?><!D>";
    let mut kinds = Vec::new();
    let mut pos = 0;
    while pos < text.len() {
        let piece = read_piece(text, pos).unwrap();
        kinds.push((format!("{:?}", piece.kind), piece.start, piece.end, piece.next));
        pos = piece.next;
    }
    let expected = [
        ("Open", 1, 2, 9),
        ("Text", 9, 14, 14),
        ("Other", 14, 14, 22),
        ("Literal", 31, 32, 35),
        ("Close", 37, 38, 40),
        ("Empty", 41, 42, 44),
        ("Other", 44, 44, 50),
        ("Other", 50, 50, 54),
    ];
    assert_eq!(kinds.len(), expected.len());
    for (found, wanted) in kinds.iter().zip(expected.iter()) {
        assert_eq!((found.0.as_str(), found.1, found.2, found.3), *wanted);
    }
    assert!(matches!(read_piece(b"<a>", 0).unwrap().kind, PieceKind::Open));
    for broken in [&b"<a"[..], b"<", b"< a>", b"</>", b"</a", b"</a b>", b"<!--x->", b"<?x>", b"<![CDATA[x]>", b"<a b=\">", b"<!x"] {
        assert!(read_piece(broken, 0).is_none());
    }
}

#[test]
fn an_element_is_found_by_the_names_on_the_way_to_it() {
    let way = ["ImageDocument", "Metadata", "Information", "Document"];
    let at = |leaf: &'static str| {
        let mut names = way.to_vec();
        names.push(leaf);
        text_at(SAMPLE, &names)
    };
    assert_eq!(at("Name"), some("Sample & co"));
    assert_eq!(at("Title"), some("A \"title\""));
    assert_eq!(at("UserName"), some(""));
    assert_eq!(at("Description"), some("<b>bold</b> text"));
    assert_eq!(at("Rating"), some("4"));
    assert_eq!(at("Comment"), Ok(None));
    assert_eq!(text_at(SAMPLE, &["Metadata"]), Ok(None));
    assert_eq!(text_at(SAMPLE, &["ImageDocument", "Name"]), Ok(None));
    assert_eq!(text_at(SAMPLE, &[]), Ok(None));
    assert_eq!(
        text_at(SAMPLE, &["ImageDocument", "Metadata", "Experiment", "Name"]),
        some("not this")
    );
}

#[test]
fn the_text_of_an_element_is_what_it_holds_itself() {
    assert_eq!(text_at("<a>one<b>two</b>three<c/></a>", &["a"]), some("onethree"));
    assert_eq!(text_at("<a>one<a>two</a></a>", &["a", "a"]), some("two"));
    assert_eq!(
        text_at("<r><a><x>1</x></a><a><b>2</b></a><a><b>3</b></a></r>", &["r", "a", "b"]),
        some("2")
    );
    assert_eq!(text_at("<a t=\"x>y\" u='/>'><b>1</b></a>", &["a", "b"]), some("1"));
    assert_eq!(text_at("<a>&lt;&gt;&amp;&quot;&apos;&nbsp;&#65;&amp</a>", &["a"]), some("<>&\"'&nbsp;&#65;&amp"));
    assert_eq!(text_at("<a><![CDATA[&lt;]]>&lt;</a>", &["a"]), some("&lt;<"));
    assert_eq!(text_at("<a> \n </a>", &["a"]), some(" \n "));
    assert_eq!(text_at("<a/><a>x</a>", &["a"]), some(""));
}

#[test]
fn a_step_can_ask_for_the_value_of_an_attribute() {
    let text = "<a><d Id=\"Y\">no</d><d Name=\"q\" Id = 'X'>yes</d><d Id='&lt;'>less</d><d Id='Z'/></a>";
    let marked = |value: &'static str| {
        find_element_text(
            text.as_bytes(),
            &[Step::to("a"), Step::to_marked("d", "Id", value)],
        )
        .map(|found| found.map(|bytes| String::from_utf8(bytes).unwrap()))
    };
    assert_eq!(marked("X"), some("yes"));
    assert_eq!(marked("Y"), some("no"));
    assert_eq!(marked("<"), some("less"));
    assert_eq!(marked("Z"), some(""));
    assert_eq!(marked("q"), Ok(None));
    assert_eq!(
        find_element_text(text.as_bytes(), &[Step::to("a"), Step::to_marked("d", "Name", "q")]),
        Ok(Some(b"yes".to_vec()))
    );
    assert_eq!(
        find_element_text(text.as_bytes(), &[Step::to("a"), Step::to("d")]),
        Ok(Some(b"no".to_vec()))
    );
}

#[test]
fn an_xml_text_that_cannot_be_read_is_corrupt() {
    let corrupt = Err(LibCZIApiError::CorruptData);
    assert_eq!(text_at("<a><b></a>", &["z"]), corrupt);
    assert_eq!(text_at("</a>", &["a"]), corrupt);
    assert_eq!(text_at("<a", &["a"]), corrupt);
    assert_eq!(text_at("<a>text", &["a"]), corrupt);
    assert_eq!(text_at("<a>x</a></b>", &["z"]), corrupt);
    assert_eq!(text_at("<a>x</a></b>", &["a"]), some("x"));
    assert_eq!(text_at("", &["a"]), Ok(None));
    assert_eq!(text_at("no tags at all", &["a"]), Ok(None));
}

#[test]
fn a_document_tells_of_itself_as_json() {
    assert_eq!(
        general_document_info(SAMPLE.as_bytes()).unwrap(),
        "{\"name\":\"Sample & co\",\"title\":\"A \\\"title\\\"\",\"user_name\":\"\",\
         \"description\":\"<b>bold</b> text\",\"rating\":4,\
         \"creation_date\":\"2024-01-02T03:04:05\"}"
    );
    assert_eq!(general_document_info(b"<ImageDocument/>").unwrap(), "{}");
    assert_eq!(general_document_info(b"").unwrap(), "{}");
    let document = |inner: &str| {
        format!(
            "<ImageDocument><Metadata><Information><Document>{}</Document></Information></Metadata></ImageDocument>",
            inner
        )
    };
    assert_eq!(
        general_document_info(document("<Keywords>a,b</Keywords><Comment>a\tb\\c\u{1}</Comment>").as_bytes()).unwrap(),
        "{\"comment\":\"a\\u0009b\\\\c\\u0001\",\"keywords\":\"a,b\"}"
    );
    for (rating, told) in [("0", true), ("7", true), ("123456789", true), ("1234567890", false), ("04", false), (" 4", false), ("", false), ("-1", false), ("four", false)] {
        let json = general_document_info(document(&format!("<Rating>{}</Rating>", rating)).as_bytes()).unwrap();
        if told {
            assert_eq!(json, format!("{{\"rating\":{}}}", rating));
        } else {
            assert_eq!(json, "{}");
        }
    }
    assert_eq!(
        general_document_info(document("<Name>ü</Name>").as_bytes()).unwrap(),
        "{\"name\":\"ü\"}"
    );
    let mut bytes = document("<Name>x</Name>").into_bytes();
    let place = bytes.iter().position(|byte| *byte == b'x').unwrap();
    bytes[place] = 0xff;
    assert_eq!(general_document_info(&bytes), Err(LibCZIApiError::CorruptData));
    assert_eq!(
        general_document_info(b"<ImageDocument>"),
        Err(LibCZIApiError::CorruptData)
    );
}

#[test]
fn texts_are_put_in_quotes_for_json() {
    let mut out = vec![7];
    append_quoted(&mut out, b"a\"b\\c\n\x1f d");
    assert_eq!(out[0], 7);
    assert_eq!(&out[1..], b"\"a\\\"b\\\\c\\u000a\\u001f d\"");
    assert!(is_plain_number_text(b"10"));
    assert!(!is_plain_number_text(b"1 0"));
}

#[test]
fn a_document_says_how_large_a_pixel_is() {
    assert_eq!(scaling_text(SAMPLE.as_bytes(), Axis::X), Ok(Some(b"1e-07".to_vec())));
    assert_eq!(scaling_text(SAMPLE.as_bytes(), Axis::Y), Ok(Some(b"2.5e-07".to_vec())));
    assert_eq!(scaling_text(SAMPLE.as_bytes(), Axis::Z), Ok(None));
    assert_eq!(scaling_text(b"<ImageDocument>", Axis::X), Err(LibCZIApiError::CorruptData));
}

#[test]
fn the_metadata_of_a_written_document_tells_of_the_document() {
    let mut writer = CziWriter::create_with_options(&WriterOptions { allow_duplicate_subblocks: false }).unwrap();
    let parameters = WriterParameters {
        file_guid: [5; 16],
        reserved_size_attachments_directory: 0,
        reserved_size_metadata_segment: 0,
        minimum_m_index: 0,
        maximum_m_index: -1,
    };
    assert_eq!(writer.init_with_parameters(OutputStream::new(), &parameters), Ok(()));
    assert_eq!(
        writer.write_metadata(WriteMetadataInfo::new(SAMPLE.len() as u32, SAMPLE.as_bytes())),
        Ok(())
    );
    assert_eq!(
        writer.add_attachement(AddAttachmentInfo::new([1; 16], [0; 8], [0; 80], 1, &[9])),
        Ok(())
    );
    assert_eq!(writer.close(), Ok(()));
    let stream = InputStream::from_bytes(writer.release().unwrap().into_bytes());
    let mut reader = CziReader::create().unwrap();
    assert_eq!(reader.open(ReaderOpenInfo::new(&stream)), Ok(()));
    let info = reader.get_metadata_segment().unwrap().get_czi_document_info().unwrap();
    let json = info.get_general_document_info().unwrap();
    assert!(json.starts_with("{\"name\":\"Sample & co\","));
    assert!(json.ends_with("\"creation_date\":\"2024-01-02T03:04:05\"}"));
    assert_eq!(info.get_scaling_text(Axis::X), Ok(Some(b"1e-07".to_vec())));
    assert_eq!(info.get_scaling_text(Axis::Z), Ok(None));
}

const SHOWN: &str = "<ImageDocument><Metadata>\
<Information><Image><SizeX>1024</SizeX><SizeZ>5</SizeZ><SizeC>two</SizeC><SizeT>007</SizeT></Image></Information>\
<DisplaySetting><Channels>\
<Channel Id=\"Channel:0\" Name=\"DAPI\"><Low>0.01</Low><High>0.5</High><Color>#FF0080FF</Color><IsSelected>true</IsSelected></Channel>\
<Channel Id=\"Channel:1\"><Color>#10a0B0</Color><IsSelected>false</IsSelected></Channel>\
<Channel Id=\"Channel:2\"><Color>red</Color><IsSelected>no</IsSelected><High>1</High></Channel>\
<Channel Id=\"Channel:10\"/>\
</Channels></DisplaySetting>\
</Metadata></ImageDocument>";

fn document(xml: &str) -> libczi::CziDocumentInfo {
    libczi::MetadataSegment::from_bytes(xml.as_bytes().to_vec())
        .get_czi_document_info()
        .unwrap()
}

#[test]
fn a_document_tells_of_a_dimension_as_json() {
    let info = document(SHOWN);
    assert_eq!(info.get_dimension_info(1).unwrap(), "{\"dimension\":\"Z\",\"size\":5}");
    assert_eq!(info.get_dimension_info(2).unwrap(), "{\"dimension\":\"C\"}");
    assert_eq!(info.get_dimension_info(3).unwrap(), "{\"dimension\":\"T\"}");
    assert_eq!(info.get_dimension_info(5).unwrap(), "{\"dimension\":\"S\"}");
    assert_eq!(info.get_dimension_info(9).unwrap(), "{\"dimension\":\"B\"}");
    for unknown in [0, 10, u32::MAX] {
        assert_eq!(info.get_dimension_info(unknown), Err(LibCZIApiError::InvalidArgument));
    }
    assert_eq!(
        document("<ImageDocument>").get_dimension_info(1),
        Err(LibCZIApiError::CorruptData)
    );
    assert_eq!(
        document("<ImageDocument>").get_dimension_info(0),
        Err(LibCZIApiError::InvalidArgument)
    );
}

#[test]
fn a_document_says_how_its_channels_are_shown() {
    let info = document(SHOWN);
    let first = info.get_channel_description(0).unwrap().unwrap();
    assert!(first.is_enabled);
    assert_eq!(first.tinting, Some((0x00, 0x80, 0xff)));
    assert_eq!(first.low, Some(b"0.01".to_vec()));
    assert_eq!(first.high, Some(b"0.5".to_vec()));
    let second = info.get_channel_description(1).unwrap().unwrap();
    assert!(!second.is_enabled);
    assert_eq!(second.tinting, Some((0x10, 0xa0, 0xb0)));
    assert_eq!((second.low, second.high), (None, None));
    let third = info.get_channel_description(2).unwrap().unwrap();
    assert!(third.is_enabled);
    assert_eq!(third.tinting, None);
    assert_eq!((third.low, third.high), (None, Some(b"1".to_vec())));
    let bare = info.get_channel_description(10).unwrap().unwrap();
    assert!(bare.is_enabled);
    assert_eq!((bare.tinting, bare.low, bare.high), (None, None, None));
    assert!(info.get_channel_description(3).unwrap().is_none());
    assert!(info.get_channel_description(u32::MAX).unwrap().is_none());
    assert_eq!(
        document("<ImageDocument>").get_channel_description(0).err(),
        Some(LibCZIApiError::CorruptData)
    );
}

#[test]
fn a_colour_is_a_hash_and_six_or_eight_digits() {
    assert_eq!(read_colour(b"#000000"), Some((0, 0, 0)));
    assert_eq!(read_colour(b"#fFfEfD"), Some((255, 254, 253)));
    assert_eq!(read_colour(b"#80010203"), Some((1, 2, 3)));
    for none in [&b""[..], b"#", b"#12345", b"#1234567", b"0123456", b"#12345g", b"#123456789", b" #123456"] {
        assert_eq!(read_colour(none), None);
    }
}

#[test]
fn the_channels_are_described_from_the_first_on() {
    let info = document(SHOWN);
    let descriptions = info.get_channel_descriptions().unwrap();
    assert_eq!(descriptions.len(), 3);
    assert_eq!(descriptions[0].low, Some(b"0.01".to_vec()));
    assert!(!descriptions[1].is_enabled);
    assert_eq!(descriptions[2].high, Some(b"1".to_vec()));
    assert!(document("<ImageDocument/>").get_channel_descriptions().unwrap().is_empty());
    assert_eq!(
        document("<ImageDocument>").get_channel_descriptions().err(),
        Some(LibCZIApiError::CorruptData)
    );

    let points = vec![
        (Some(0.01f32.to_bits()), Some(0.5f32.to_bits())),
        (None, None),
        (None, Some(1.0f32.to_bits())),
    ];
    let settings = DisplaySettings::from_descriptions(&descriptions, &points).unwrap();
    assert_eq!(
        settings.channels,
        vec![
            ChannelDisplaySettings {
                channel_id: 0,
                is_enabled: true,
                weight: 1.0f32.to_bits(),
                enable_tinting: true,
                tinting_color_r: 0x00,
                tinting_color_g: 0x80,
                tinting_color_b: 0xff,
                black_point: 0.01f32.to_bits(),
                white_point: 0.5f32.to_bits(),
            },
            ChannelDisplaySettings {
                channel_id: 1,
                is_enabled: false,
                weight: 1.0f32.to_bits(),
                enable_tinting: true,
                tinting_color_r: 0x10,
                tinting_color_g: 0xa0,
                tinting_color_b: 0xb0,
                black_point: 0.0f32.to_bits(),
                white_point: 1.0f32.to_bits(),
            },
            ChannelDisplaySettings {
                channel_id: 2,
                is_enabled: true,
                weight: 1.0f32.to_bits(),
                enable_tinting: false,
                tinting_color_r: 0,
                tinting_color_g: 0,
                tinting_color_b: 0,
                black_point: 0.0f32.to_bits(),
                white_point: 1.0f32.to_bits(),
            },
        ]
    );
    assert_eq!(
        settings.get_channel_display_settings(1).unwrap().tinting_color_g,
        0xa0
    );
    assert_eq!(
        DisplaySettings::from_descriptions(&descriptions, &points[..2].to_vec()).err(),
        Some(LibCZIApiError::InvalidArgument)
    );
}

#[test]
fn display_settings_and_sizes_take_the_numbers_that_the_texts_stand_for() {
    let info = document(SHOWN);
    let descriptions = info.get_channel_descriptions().unwrap();
    let bits = |text: &Option<Vec<u8>>| {
        text.as_ref()
            .and_then(|bytes| std::str::from_utf8(bytes).ok())
            .and_then(|text| text.parse::<f32>().ok())
            .map(f32::to_bits)
    };
    let points: Vec<(Option<u32>, Option<u32>)> = descriptions
        .iter()
        .map(|described| (bits(&described.low), bits(&described.high)))
        .collect();
    let settings = info.get_display_settings(&points).unwrap();
    assert_eq!(settings.channels.len(), 3);
    let first = settings.get_channel_display_settings(0).unwrap();
    assert_eq!(first.black_point, 0.01f32.to_bits());
    assert_eq!(first.white_point, 0.5f32.to_bits());
    assert_eq!(first.weight, 1.0f32.to_bits());
    let second = settings.get_channel_display_settings(1).unwrap();
    assert_eq!((second.black_point, second.white_point), (0, 1.0f32.to_bits()));
    assert_eq!(
        info.get_display_settings(&Vec::new()).err(),
        Some(LibCZIApiError::InvalidArgument)
    );
    assert_eq!(
        document("<ImageDocument>").get_display_settings(&Vec::new()).err(),
        Some(LibCZIApiError::CorruptData)
    );
    assert!(document("<ImageDocument/>")
        .get_display_settings(&Vec::new())
        .unwrap()
        .channels
        .is_empty());

    let sizes = document(SAMPLE).get_scaling_info(Some(1e-7f64.to_bits()), Some(2.5e-7f64.to_bits()), None);
    assert_eq!(f64::from_bits(sizes.get_scale_x()), 1e-7);
    assert_eq!(f64::from_bits(sizes.get_scale_y()), 2.5e-7);
    assert!(f64::from_bits(sizes.get_scale_z()).is_nan());
    assert_eq!(sizes.get_scale_z(), 0x7ff8_0000_0000_0000);
}
