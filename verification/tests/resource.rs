use vop_codec::chunked::compress;
use vop_codec::error::Error;
use vop_codec::resource_parse::{read_envelope, read_raw_payload, EnvelopeFields, Resrc, ResrcMethod, ResrcRevision};
use vop_codec::resource_write::write_resource;

fn rev(head: u32) -> ResrcRevision {
    ResrcRevision { head, branch_id: 0, branch_revision: 0 }
}

fn sample(len: usize) -> Vec<u8> {
    (0..len).map(|i| ((i * 7) ^ (i >> 3)) as u8).collect()
}

fn binary(revision: ResrcRevision, is_encrypted: bool, data: Vec<u8>) -> Resrc {
    Resrc {
        resrc_type: *b"VOP",
        method: ResrcMethod::Binary { resrc_type: *b"VOP", revision, is_encrypted, data },
    }
}

#[test]
fn head_0x33e_has_every_field() {
    assert_eq!(
        rev(0x33e).fields(),
        EnvelopeFields {
            dependency_table_offset: true,
            branch: true,
            compression_flags: true,
            compression_marker: true,
        }
    );
}

#[test]
fn head_0x100_has_no_field() {
    assert_eq!(
        rev(0x100).fields(),
        EnvelopeFields {
            dependency_table_offset: false,
            branch: false,
            compression_flags: false,
            compression_marker: false,
        }
    );
}

#[test]
fn fields_start_at_their_thresholds() {
    let table = |head: u32| {
        let f = rev(head).fields();
        (f.dependency_table_offset, f.compression_marker, f.branch, f.compression_flags)
    };
    assert_eq!(table(0), (false, false, false, false));
    assert_eq!(table(0x108), (false, false, false, false));
    assert_eq!(table(0x109), (true, false, false, false));
    assert_eq!(table(0x188), (true, false, false, false));
    assert_eq!(table(0x189), (true, true, false, false));
    assert_eq!(table(0x270), (true, true, false, false));
    assert_eq!(table(0x271), (true, true, true, false));
    assert_eq!(table(0x296), (true, true, true, false));
    assert_eq!(table(0x297), (true, true, true, true));
    assert_eq!(table(u32::MAX), (true, true, true, true));
}

#[test]
fn one_old_branch_has_compression_flags() {
    let on = |head: u32, branch_id: u16, branch_revision: u16| {
        ResrcRevision { head, branch_id, branch_revision }.fields().compression_flags
    };
    assert!(on(0x272, 0x4c44, 2));
    assert!(on(0x272, 0x4c44, 0xFFFF));
    assert!(!on(0x272, 0x4c44, 1));
    assert!(!on(0x272, 0x4c45, 2));
    assert!(!on(0x273, 0x4c44, 2));
    assert!(!on(0x271, 0x4c44, 2));
}

#[test]
fn written_bytes_at_head_0x33e() {
    let data = sample(40);
    let stream = compress(&data).unwrap();
    let revision = ResrcRevision { head: 0x33e, branch_id: 0x1234, branch_revision: 0x5678 };
    let bytes = write_resource(data, revision).unwrap();
    let offset = (18 + stream.len()) as u32;
    let mut expected = b"VOPb\x00\x00\x03\x3e".to_vec();
    expected.extend_from_slice(&offset.to_be_bytes());
    expected.extend_from_slice(&[0x12, 0x34, 0x56, 0x78, 0x07, 0x01]);
    expected.extend_from_slice(&stream);
    expected.extend_from_slice(&[0, 0, 0, 0]);
    assert_eq!(bytes, expected);
}

#[test]
fn written_bytes_at_head_0x100() {
    let data = sample(40);
    let stream = compress(&data).unwrap();
    let bytes = write_resource(data, ResrcRevision { head: 0x100, branch_id: 9, branch_revision: 9 }).unwrap();
    let mut expected = b"VOPb\x00\x00\x01\x00".to_vec();
    expected.extend_from_slice(&stream);
    assert_eq!(bytes, expected);
}

#[test]
fn written_bytes_between_the_thresholds() {
    let data = sample(3);
    let stream = compress(&data).unwrap();

    let bytes = write_resource(data.clone(), rev(0x109)).unwrap();
    let mut expected = b"VOPb\x00\x00\x01\x09".to_vec();
    expected.extend_from_slice(&((12 + stream.len()) as u32).to_be_bytes());
    expected.extend_from_slice(&stream);
    expected.extend_from_slice(&[0, 0, 0, 0]);
    assert_eq!(bytes, expected);

    let bytes = write_resource(data.clone(), rev(0x189)).unwrap();
    let mut expected = b"VOPb\x00\x00\x01\x89".to_vec();
    expected.extend_from_slice(&((13 + stream.len()) as u32).to_be_bytes());
    expected.push(1);
    expected.extend_from_slice(&stream);
    expected.extend_from_slice(&[0, 0, 0, 0]);
    assert_eq!(bytes, expected);

    let bytes = write_resource(data.clone(), ResrcRevision { head: 0x271, branch_id: 0xAABB, branch_revision: 0xCCDD }).unwrap();
    let mut expected = b"VOPb\x00\x00\x02\x71".to_vec();
    expected.extend_from_slice(&((17 + stream.len()) as u32).to_be_bytes());
    expected.extend_from_slice(&[0xAA, 0xBB, 0xCC, 0xDD, 0x01]);
    expected.extend_from_slice(&stream);
    expected.extend_from_slice(&[0, 0, 0, 0]);
    assert_eq!(bytes, expected);

    let bytes = write_resource(data, ResrcRevision { head: 0x272, branch_id: 0x4c44, branch_revision: 2 }).unwrap();
    let mut expected = b"VOPb\x00\x00\x02\x72".to_vec();
    expected.extend_from_slice(&((18 + stream.len()) as u32).to_be_bytes());
    expected.extend_from_slice(&[0x4c, 0x44, 0x00, 0x02, 0x07, 0x01]);
    expected.extend_from_slice(&stream);
    expected.extend_from_slice(&[0, 0, 0, 0]);
    assert_eq!(bytes, expected);
}

#[test]
fn offset_in_the_header_points_at_the_dependency_table() {
    let bytes = write_resource(sample(70000), rev(0x33e)).unwrap();
    let offset = u32::from_be_bytes([bytes[8], bytes[9], bytes[10], bytes[11]]) as usize;
    assert_eq!(offset, bytes.len() - 4);
    assert_eq!(&bytes[offset..], &[0, 0, 0, 0]);
}

#[test]
fn round_trip_of_empty_payload() {
    let bytes = write_resource(Vec::new(), rev(0x33e)).unwrap();
    assert_eq!(Resrc::new(&bytes), Ok(binary(rev(0x33e), false, Vec::new())));
}

#[test]
fn round_trip_of_small_payload() {
    let data = sample(1234);
    let bytes = write_resource(data.clone(), rev(0x33e)).unwrap();
    assert_eq!(Resrc::new(&bytes), Ok(binary(rev(0x33e), false, data)));
}

#[test]
fn round_trip_of_payload_longer_than_a_chunk() {
    for len in [0x8000usize, 0x8001, 0x9000, 0x20000 + 17] {
        let data = sample(len);
        let bytes = write_resource(data.clone(), rev(0x33e)).unwrap();
        assert_eq!(Resrc::new(&bytes), Ok(binary(rev(0x33e), false, data)));
    }
}

#[test]
fn round_trip_at_every_revision_with_a_compression_marker() {
    let data = sample(5000);
    for head in [0x189u32, 0x200, 0x270, 0x271, 0x272, 0x296, 0x297, 0x33e, u32::MAX] {
        let revision = ResrcRevision { head, branch_id: 0x4c44, branch_revision: 7 };
        let bytes = write_resource(data.clone(), revision).unwrap();
        let read = if head >= 0x271 { revision } else { rev(head) };
        assert_eq!(Resrc::new(&bytes), Ok(binary(read, false, data.clone())));
    }
}

#[test]
fn old_revisions_read_back_the_chunked_stream() {
    let data = sample(5000);
    let stream = compress(&data).unwrap();
    for head in [0u32, 0x100, 0x108, 0x109, 0x188] {
        let bytes = write_resource(data.clone(), rev(head)).unwrap();
        assert_eq!(Resrc::new(&bytes), Ok(binary(rev(head), false, stream.clone())));
    }
}

#[test]
fn other_method_byte_means_no_payload() {
    assert_eq!(Resrc::new(b"VOPt"), Ok(Resrc { resrc_type: *b"VOP", method: ResrcMethod::Null }));
    assert_eq!(
        Resrc::new(b"TEX\x00\x01\x02\x03"),
        Ok(Resrc { resrc_type: *b"TEX", method: ResrcMethod::Null })
    );
}

#[test]
fn method_e_means_encrypted() {
    let mut bytes = write_resource(sample(10), rev(0x33e)).unwrap();
    bytes[3] = b'e';
    assert_eq!(Resrc::new(&bytes), Ok(binary(rev(0x33e), true, sample(10))));
}

#[test]
fn type_tag_is_read_as_it_stands() {
    let mut bytes = write_resource(sample(10), rev(0x33e)).unwrap();
    bytes[0..3].copy_from_slice(b"PLN");
    let read = Resrc::new(&bytes).unwrap();
    assert_eq!(read.resrc_type, *b"PLN");
    assert_eq!(
        read.method,
        ResrcMethod::Binary { resrc_type: *b"PLN", revision: rev(0x33e), is_encrypted: false, data: sample(10) }
    );
}

#[test]
fn uncompressed_payload_ends_at_the_dependency_table() {
    let mut bytes = b"VOPb\x00\x00\x03\x3e".to_vec();
    bytes.extend_from_slice(&23u32.to_be_bytes());
    bytes.extend_from_slice(&[0x00, 0x01, 0x00, 0x02, 0x07, 0x00]);
    bytes.extend_from_slice(&[10, 20, 30, 40, 50]);
    bytes.extend_from_slice(&[0, 0, 0, 1, 0xFF]);
    let revision = ResrcRevision { head: 0x33e, branch_id: 1, branch_revision: 2 };
    assert_eq!(Resrc::new(&bytes), Ok(binary(revision, false, vec![10, 20, 30, 40, 50])));
}

#[test]
fn uncompressed_payload_without_offset_runs_to_the_end() {
    let bytes = b"VOPb\x00\x00\x01\x00hello".to_vec();
    assert_eq!(Resrc::new(&bytes), Ok(binary(rev(0x100), false, b"hello".to_vec())));
    let bytes = b"VOPe\x00\x00\x00\x00".to_vec();
    assert_eq!(Resrc::new(&bytes), Ok(binary(rev(0), true, Vec::new())));
}

#[test]
fn uncompressed_payload_of_middle_revision() {
    let mut bytes = b"VOPb\x00\x00\x01\x09".to_vec();
    bytes.extend_from_slice(&14u32.to_be_bytes());
    bytes.extend_from_slice(&[1, 2, 9, 9, 9]);
    assert_eq!(Resrc::new(&bytes), Ok(binary(rev(0x109), false, vec![1, 2])));
}

#[test]
fn any_nonzero_marker_means_compressed() {
    let data = sample(100);
    let mut bytes = write_resource(data.clone(), rev(0x189)).unwrap();
    assert_eq!(bytes[12], 1);
    bytes[12] = 0xFF;
    assert_eq!(Resrc::new(&bytes), Ok(binary(rev(0x189), false, data)));
}

#[test]
fn cut_header_is_io() {
    let full = write_resource(sample(10), ResrcRevision { head: 0x33e, branch_id: 1, branch_revision: 1 }).unwrap();
    for len in 0..18 {
        assert_eq!(Resrc::new(&full[..len]), Err(Error::Io));
    }
    for len in 18..22 {
        assert_eq!(Resrc::new(&full[..len]), Err(Error::Io));
    }
}

#[test]
fn cut_header_of_old_revision_is_io() {
    assert_eq!(Resrc::new(b"VOPb\x00\x00\x01"), Err(Error::Io));
    assert_eq!(Resrc::new(b"VOPb\x00\x00\x01\x09\x00\x00"), Err(Error::Io));
    assert_eq!(Resrc::new(b"VOPb\x00\x00\x01\x89\x00\x00\x00\x0d"), Err(Error::Io));
}

#[test]
fn offset_before_the_payload_is_corruption() {
    let mut bytes = b"VOPb\x00\x00\x01\x09".to_vec();
    bytes.extend_from_slice(&11u32.to_be_bytes());
    bytes.extend_from_slice(&[1, 2, 3]);
    assert_eq!(Resrc::new(&bytes), Err(Error::FormatCorruption));
}

#[test]
fn offset_beyond_the_end_is_corruption() {
    let mut bytes = b"VOPb\x00\x00\x01\x09".to_vec();
    bytes.extend_from_slice(&16u32.to_be_bytes());
    bytes.extend_from_slice(&[1, 2, 3]);
    assert_eq!(Resrc::new(&bytes), Err(Error::FormatCorruption));
    let mut bytes = b"VOPb\x00\x00\x01\x09".to_vec();
    bytes.extend_from_slice(&u32::MAX.to_be_bytes());
    assert_eq!(Resrc::new(&bytes), Err(Error::FormatCorruption));
}

#[test]
fn bad_chunk_in_container_is_decompression_error() {
    let mut bytes = b"VOPb\x00\x00\x01\x89\x00\x00\x00\x00\x01".to_vec();
    bytes.extend_from_slice(&[0, 1, 0, 1, 0, 2, 0, 5, 0x12, 0x34]);
    assert_eq!(Resrc::new(&bytes), Err(Error::Decompression));
}

#[test]
fn cut_chunk_in_container_is_corruption() {
    let bytes = write_resource(sample(3000), rev(0x100)).unwrap();
    let mut with_marker = write_resource(sample(3000), rev(0x33e)).unwrap();
    with_marker.truncate(18 + (bytes.len() - 8) - 1);
    assert_eq!(Resrc::new(&with_marker), Err(Error::FormatCorruption));
}

#[test]
fn read_envelope_gives_the_header() {
    let bytes = write_resource(sample(10), ResrcRevision { head: 0x272, branch_id: 0x4c44, branch_revision: 2 }).unwrap();
    let envelope = read_envelope(&bytes).unwrap();
    assert_eq!(envelope.revision, ResrcRevision { head: 0x272, branch_id: 0x4c44, branch_revision: 2 });
    assert_eq!(envelope.dependency_table_offset, Some((bytes.len() - 4) as u32));
    assert!(envelope.is_compressed);
    assert_eq!(envelope.payload_start, 18);

    let envelope = read_envelope(b"VOPb\x00\x00\x01\x00").unwrap();
    assert_eq!(envelope.revision, rev(0x100));
    assert_eq!(envelope.dependency_table_offset, None);
    assert!(!envelope.is_compressed);
    assert_eq!(envelope.payload_start, 8);

    let bytes = write_resource(sample(10), ResrcRevision { head: 0x272, branch_id: 0x4c44, branch_revision: 1 }).unwrap();
    assert_eq!(read_envelope(&bytes).unwrap().payload_start, 17);
}

#[test]
fn read_raw_payload_by_offset_or_to_the_end() {
    let bytes = [0u8, 1, 2, 3, 4, 5, 6, 7];
    assert_eq!(read_raw_payload(&bytes, 2, Some(5)), Ok(vec![2, 3, 4]));
    assert_eq!(read_raw_payload(&bytes, 2, None), Ok(vec![2, 3, 4, 5, 6, 7]));
    assert_eq!(read_raw_payload(&bytes, 8, None), Ok(Vec::new()));
    assert_eq!(read_raw_payload(&bytes, 2, Some(2)), Ok(Vec::new()));
    assert_eq!(read_raw_payload(&bytes, 2, Some(1)), Err(Error::FormatCorruption));
    assert_eq!(read_raw_payload(&bytes, 2, Some(9)), Err(Error::FormatCorruption));
}
