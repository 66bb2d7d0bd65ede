use libczi::coordinate::Coordinate;
use libczi::dimension::Dimension;
use libczi::metadata::WriteMetadataInfo;
use libczi::pixel::PixelType;
use libczi::reader::CziReader;
use libczi::stream::{InputStream, OutputStream, ReaderOpenInfo};
use libczi::subblock::AddSubBlockInfo;
use libczi::writer::CziWriter;

const XML: &str = "<ImageDocument><Metadata><Information>\
<Document><Name>Experiment-2029</Name><UserName>lab</UserName><Rating>0</Rating></Document>\
<Image><SizeX>8</SizeX><SizeY>4</SizeY><SizeC>2</SizeC></Image>\
</Information></Metadata></ImageDocument>";

/// The bytes of a document with two channels of 8 by 4 pixels, each in two
/// tiles, and with metadata.
fn experiment() -> InputStream {
    let mut writer = CziWriter::create("{\"allow_duplicate_subblocks\": false}").unwrap();
    let parameters = "{\"file_guid\": \"123e4567-e89b-12d3-a456-426614174000\", \
                      \"reserved_size_metadata_segment\": 1000, \
                      \"minimum_m_index\": 0, \"maximum_m_index\": 100}";
    assert_eq!(writer.init(OutputStream::new(), parameters), Ok(()));
    for channel in 0..2 {
        for tile in 0..2 {
            let pixels: Vec<u8> = (0..16).map(|place| (100 * channel + 16 * tile + place) as u8).collect();
            let info = AddSubBlockInfo::new(
                Coordinate::new(0b10, [channel, 0, 0, 0, 0, 0, 0, 0, 0]),
                1,
                tile,
                4 * tile,
                0,
                4,
                4,
                4,
                4,
                PixelType::Gray8,
                0,
                16,
                &pixels,
                4,
                0,
                &[],
                0,
                &[],
            );
            assert_eq!(writer.add_sub_block(info), Ok(()));
        }
    }
    assert_eq!(
        writer.write_metadata(WriteMetadataInfo::new(XML.len() as u32, XML.as_bytes())),
        Ok(())
    );
    assert_eq!(writer.close(), Ok(()));
    InputStream::from_bytes(writer.release().unwrap().into_bytes())
}

#[test]
fn test_read_shape() {
    let mut czi = CziReader::create().unwrap();
    let stream = experiment();
    let open_info = ReaderOpenInfo::new(&stream);
    czi.open(open_info).unwrap();
    println!("pyramid statistics: {:?}", czi.get_pyramid_statistics().unwrap());
    println!("file header info: {:?}", czi.get_file_header_info().unwrap());
    let statistics_simple = czi.get_statistics_simple().unwrap();
    println!("statistics simple: {:?}", czi.get_statistics_simple().unwrap());
    let bounding_box = statistics_simple.get_bounding_box();
    let dim_bounds = statistics_simple.get_dim_bounds();
    let dimensions = Dimension::vec_from_bitflags(dim_bounds.get_dimensions_valid());
    let size = dim_bounds.get_size();
    for (i, d) in dimensions.iter().enumerate() {
        println!("{:?}: {}", d, size[i]);
    }
    println!("X: {}", bounding_box.get_w());
    println!("Y: {}", bounding_box.get_h());
    assert_eq!(dimensions, vec![Dimension::C]);
    assert_eq!(size[0], 2);
    assert_eq!((bounding_box.get_w(), bounding_box.get_h()), (8, 4));
}

#[test]
fn test_read_bytes() {
    let mut czi = CziReader::create().unwrap();
    let stream = experiment();
    let open_info = ReaderOpenInfo::new(&stream);
    czi.open(open_info).unwrap();
    let sub_block = czi.read_sub_block(0).unwrap().unwrap();
    let bitmap = sub_block.create_bitmap().unwrap().lock().unwrap();
    let bitmap_info = bitmap.get_info().unwrap();
    println!(
        "height: {}, width: {} pixel type: {:#?}",
        bitmap_info.get_height(),
        bitmap_info.get_width(),
        bitmap_info.get_pixel_type().unwrap()
    );
    let bytes = bitmap.lock_info.get_data_roi();
    println!("bytes: {:?}", bytes.as_slice()[..bytes.len().min(100)].to_vec());
    assert_eq!((bitmap_info.get_height(), bitmap_info.get_width()), (4, 4));
    assert_eq!(bitmap_info.get_pixel_type(), Ok(PixelType::Gray8));
    assert_eq!(bytes, (0..16).collect::<Vec<u8>>());
}

#[test]
fn test_libczi_xml() {
    let mut czi = CziReader::create().unwrap();
    let stream = experiment();
    let open_info = ReaderOpenInfo::new(&stream);
    czi.open(open_info).unwrap();
    let metadata_segment = czi.get_metadata_segment().unwrap();
    let xml = metadata_segment.get_metadata_as_xml().unwrap();
    let s = xml.get_data().unwrap();
    println!("xml: {}", &s[..s.len().min(100)]);
    assert_eq!(s, XML);
}

#[test]
fn test_libczi_pyramid_statistics() {
    let mut czi = CziReader::create().unwrap();
    let stream = experiment();
    let open_info = ReaderOpenInfo::new(&stream);
    czi.open(open_info).unwrap();
    let s = czi.get_pyramid_statistics().unwrap();
    println!("xml: {}", &s[..s.len().min(100)]);
    assert_eq!(
        s,
        "{\"scenePyramidStatistics\":{\"2147483647\":[{\"layerInfo\":\
         {\"minificationFactor\":1,\"pyramidLayerNo\":0},\"count\":4}]}}"
    );
}

#[test]
fn test_libczi_document_info() {
    let mut czi = CziReader::create().unwrap();
    let stream = experiment();
    let open_info = ReaderOpenInfo::new(&stream);
    czi.open(open_info).unwrap();
    let metadata_segment = czi.get_metadata_segment().unwrap();
    let document_info = metadata_segment.get_czi_document_info().unwrap();
    let general_document_info = document_info.get_general_document_info().unwrap();
    println!(
        "xml: {}",
        &general_document_info[..general_document_info.len().min(100)]
    );
    assert_eq!(
        general_document_info,
        "{\"name\":\"Experiment-2029\",\"user_name\":\"lab\",\"rating\":0}"
    );
    assert_eq!(
        document_info.get_dimension_info(2).unwrap(),
        "{\"dimension\":\"C\",\"size\":2}"
    );
}
