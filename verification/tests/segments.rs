use libczi::segment::{
    kind_at, read_segment, read_segment_of_kind, write_segment, SegmentHeader, SegmentKind,
};
use libczi::stream::{InputStream, OutputStream};
use libczi::LibCZIApiError;

#[test]
fn a_segment_starts_with_its_tag_and_its_two_sizes() {
    let mut stream = OutputStream::new();
    assert_eq!(
        write_segment(&mut stream, 0, SegmentKind::Metadata, &[1, 2, 3], 5),
        Ok(37)
    );
    let bytes = stream.bytes().to_vec();
    assert_eq!(bytes.len(), 37);
    assert_eq!(&bytes[0..16], b"ZISRAWMETADATA\0\0");
    assert_eq!(&bytes[16..24], &[5, 0, 0, 0, 0, 0, 0, 0]);
    assert_eq!(&bytes[24..32], &[3, 0, 0, 0, 0, 0, 0, 0]);
    assert_eq!(&bytes[32..37], &[1, 2, 3, 0, 0]);
}

#[test]
fn every_kind_has_a_tag_of_its_own() {
    let kinds = [
        (SegmentKind::FileHeader, &b"ZISRAWFILE\0\0\0\0\0\0"[..]),
        (SegmentKind::SubBlockDirectory, &b"ZISRAWDIRECTORY\0"[..]),
        (SegmentKind::SubBlock, &b"ZISRAWSUBBLOCK\0\0"[..]),
        (SegmentKind::Metadata, &b"ZISRAWMETADATA\0\0"[..]),
        (SegmentKind::Attachment, &b"ZISRAWATTACH\0\0\0\0"[..]),
        (SegmentKind::AttachmentDirectory, &b"ZISRAWATTDIR\0\0\0\0"[..]),
        (SegmentKind::Deleted, &b"DELETED\0\0\0\0\0\0\0\0\0"[..]),
    ];
    for (kind, tag) in kinds {
        assert_eq!(&kind.tag()[..], tag);
        assert_eq!(kind_at(tag, 0), Some(kind));
    }
    assert_eq!(kind_at(b"ZISRAWSOMETHING\0", 0), None);
    assert_eq!(kind_at(&[0; 16], 0), None);
}

#[test]
fn a_segment_that_was_written_is_read_where_it_stands() {
    let mut stream = OutputStream::new();
    assert_eq!(
        write_segment(&mut stream, 0, SegmentKind::FileHeader, &[7; 10], 10),
        Ok(42)
    );
    assert_eq!(
        write_segment(&mut stream, 42, SegmentKind::SubBlock, &[9; 4], 20),
        Ok(52)
    );
    assert_eq!(stream.size(), 94);
    let bytes = stream.bytes();
    assert_eq!(
        read_segment(bytes, 0),
        Ok(SegmentHeader { kind: SegmentKind::FileHeader, allocated_size: 10, used_size: 10 })
    );
    assert_eq!(
        read_segment(bytes, 42),
        Ok(SegmentHeader { kind: SegmentKind::SubBlock, allocated_size: 20, used_size: 4 })
    );
    assert_eq!(
        read_segment_of_kind(bytes, 42, SegmentKind::SubBlock),
        read_segment(bytes, 42)
    );
    assert_eq!(
        read_segment_of_kind(bytes, 42, SegmentKind::Metadata),
        Err(LibCZIApiError::CorruptData)
    );
}

#[test]
fn a_stream_that_ends_too_early_is_truncated() {
    let mut stream = OutputStream::new();
    assert!(write_segment(&mut stream, 0, SegmentKind::Attachment, &[1; 8], 8).is_ok());
    let bytes = stream.into_bytes();
    assert_eq!(read_segment(&bytes[..39], 0), Err(LibCZIApiError::Truncated));
    assert_eq!(read_segment(&bytes[..31], 0), Err(LibCZIApiError::Truncated));
    assert_eq!(read_segment(&bytes, 9), Err(LibCZIApiError::Truncated));
    assert_eq!(read_segment(&bytes, 40), Err(LibCZIApiError::Truncated));
    assert_eq!(read_segment(&bytes, u64::MAX), Err(LibCZIApiError::Truncated));
    assert_eq!(read_segment(&[], 0), Err(LibCZIApiError::Truncated));
    assert!(read_segment(&bytes, 0).is_ok());
}

#[test]
fn bytes_that_are_no_header_are_corrupt() {
    let mut stream = OutputStream::new();
    assert!(write_segment(&mut stream, 0, SegmentKind::Attachment, &[1; 8], 8).is_ok());
    let good = stream.into_bytes();
    let mut unknown = good.clone();
    unknown[3] = b'X';
    assert_eq!(read_segment(&unknown, 0), Err(LibCZIApiError::CorruptData));
    let mut overfull = good.clone();
    overfull[24] = 9;
    assert_eq!(read_segment(&overfull, 0), Err(LibCZIApiError::CorruptData));
    let mut negative = good.clone();
    negative[23] = 0x80;
    assert_eq!(read_segment(&negative, 0), Err(LibCZIApiError::CorruptData));
}

#[test]
fn a_segment_needs_room_for_its_payload() {
    let mut stream = OutputStream::new();
    assert_eq!(
        write_segment(&mut stream, 0, SegmentKind::SubBlock, &[1, 2, 3], 2),
        Err(LibCZIApiError::InvalidArgument)
    );
    assert_eq!(
        write_segment(&mut stream, 0, SegmentKind::SubBlock, &[], u64::MAX),
        Err(LibCZIApiError::InvalidArgument)
    );
    assert_eq!(stream.size(), 0);
}

#[test]
fn a_write_replaces_what_was_there_and_fills_gaps_with_zeros() {
    let mut stream = OutputStream::new();
    assert_eq!(stream.write(0, &[1, 2, 3, 4]), Ok(()));
    assert_eq!(stream.write(1, &[9, 9]), Ok(()));
    assert_eq!(stream.bytes(), &[1, 9, 9, 4]);
    assert_eq!(stream.write(6, &[5]), Ok(()));
    assert_eq!(stream.bytes(), &[1, 9, 9, 4, 0, 0, 5]);
    assert_eq!(stream.write(5, &[7, 8, 6]), Ok(()));
    assert_eq!(stream.bytes(), &[1, 9, 9, 4, 0, 7, 8, 6]);
    assert_eq!(stream.write(3, &[]), Ok(()));
    assert_eq!(stream.size(), 8);
    assert_eq!(
        stream.write(u64::MAX, &[1]),
        Err(LibCZIApiError::OutOfMemory)
    );
    assert_eq!(stream.size(), 8);
}

#[test]
fn a_read_gives_what_is_there_and_no_more() {
    let stream = InputStream::from_bytes(vec![10, 11, 12, 13, 14]);
    assert_eq!(stream.size(), 5);
    assert_eq!(stream.read(0, 5), vec![10, 11, 12, 13, 14]);
    assert_eq!(stream.read(1, 2), vec![11, 12]);
    assert_eq!(stream.read(3, 10), vec![13, 14]);
    assert_eq!(stream.read(5, 1), Vec::<u8>::new());
    assert_eq!(stream.read(2, 0), Vec::<u8>::new());
    assert_eq!(stream.read(u64::MAX, u64::MAX), Vec::<u8>::new());
    assert_eq!(stream.read(4, u64::MAX), vec![14]);
    assert_eq!(stream.bytes(), &[10, 11, 12, 13, 14]);
}
