use vop_codec::chunked::{
    compress, count_chunks, decompress, pack_chunk, read_chunk_table, Chunk, CHUNK_SIZE, COMPRESSION_LEVEL,
    MAX_PAYLOAD, RESERVED_WORD,
};
use vop_codec::endian::{push_be_u16, push_be_u32};
use vop_codec::error::Error;
use vop_codec::zlib::{check_inflated, InflateStatus, NON_WRAPPING_OUTPUT_BUF, PARSE_ZLIB_HEADER};

/// Bytes that zlib cannot make shorter.
fn noise(len: usize, seed: u32) -> Vec<u8> {
    let mut state = seed | 1;
    (0..len)
        .map(|_| {
            state ^= state << 13;
            state ^= state >> 17;
            state ^= state << 5;
            (state >> 11) as u8
        })
        .collect()
}

/// Bytes that zlib makes much shorter.
fn text(len: usize) -> Vec<u8> {
    (0..len).map(|i| b"all work and no play "[i % 21]).collect()
}

fn table_of(stream: &[u8]) -> Vec<Chunk> {
    read_chunk_table(stream).unwrap()
}

#[test]
fn big_endian_words() {
    let mut out = vec![0xEE];
    push_be_u16(&mut out, 0x1234);
    push_be_u32(&mut out, 0xA1B2C3D4);
    push_be_u16(&mut out, 1);
    push_be_u32(&mut out, 0);
    assert_eq!(out, vec![0xEE, 0x12, 0x34, 0xA1, 0xB2, 0xC3, 0xD4, 0x00, 0x01, 0, 0, 0, 0]);
}

#[test]
fn constants_are_those_of_the_format() {
    assert_eq!(CHUNK_SIZE, 0x8000);
    assert_eq!(MAX_PAYLOAD, 0xFFFF * 0x8000);
    assert_eq!(COMPRESSION_LEVEL, 9);
    assert_eq!(RESERVED_WORD, 1);
}

#[test]
fn flags_are_those_of_the_decompressor() {
    assert_eq!(PARSE_ZLIB_HEADER, miniz_oxide::inflate::core::inflate_flags::TINFL_FLAG_PARSE_ZLIB_HEADER);
    assert_eq!(
        NON_WRAPPING_OUTPUT_BUF,
        miniz_oxide::inflate::core::inflate_flags::TINFL_FLAG_USING_NON_WRAPPING_OUTPUT_BUF
    );
}

#[test]
fn empty_payload_has_no_chunks() {
    let stream = compress(&[]).unwrap();
    assert_eq!(stream, vec![0x00, 0x01, 0x00, 0x00]);
    assert_eq!(decompress(&stream), Ok(Vec::new()));
}

#[test]
fn payload_of_0x9000_bytes_has_two_chunks() {
    let data = text(0x9000);
    let stream = compress(&data).unwrap();
    assert_eq!(&stream[..4], &[0x00, 0x01, 0x00, 0x02]);
    let table = table_of(&stream);
    assert_eq!(table.len(), 2);
    assert_eq!(table[0].decompressed_size, 0x8000);
    assert_eq!(table[1].decompressed_size, 0x1000);
    assert_eq!(decompress(&stream), Ok(data));
}

#[test]
fn chunk_counts_at_the_boundaries() {
    for (len, count) in [(1usize, 1usize), (0x7FFF, 1), (0x8000, 1), (0x8001, 2), (0x10000, 2), (0x10001, 3)] {
        let data = text(len);
        let stream = compress(&data).unwrap();
        let table = table_of(&stream);
        assert_eq!(table.len(), count);
        let last = if len % 0x8000 == 0 { 0x8000 } else { len % 0x8000 };
        for (i, chunk) in table.iter().enumerate() {
            let expected = if i + 1 == count { last } else { 0x8000 };
            assert_eq!(chunk.decompressed_size as usize, expected);
        }
        assert_eq!(decompress(&stream), Ok(data));
    }
}

#[test]
fn compressed_chunk_is_what_zlib_makes_at_level_nine() {
    let data = text(1000);
    let stream = compress(&data).unwrap();
    let zlib = miniz_oxide::deflate::compress_to_vec_zlib(&data, 9);
    assert!(zlib.len() < data.len());
    assert_ne!(zlib, miniz_oxide::deflate::compress_to_vec_zlib(&data, 1));
    let mut expected = vec![0x00, 0x01, 0x00, 0x01];
    push_be_u16(&mut expected, zlib.len() as u16);
    push_be_u16(&mut expected, 1000);
    expected.extend_from_slice(&zlib);
    assert_eq!(stream, expected);
}

#[test]
fn chunk_that_does_not_shrink_is_stored() {
    let data = noise(300, 77);
    assert!(miniz_oxide::deflate::compress_to_vec_zlib(&data, 9).len() >= data.len());
    let stream = compress(&data).unwrap();
    let table = table_of(&stream);
    assert_eq!(table, vec![Chunk { compressed_size: 300, decompressed_size: 300 }]);
    assert!(table[0].is_stored());
    assert_eq!(&stream[8..], &data[..]);
    assert_eq!(decompress(&stream), Ok(data));
}

#[test]
fn stored_and_compressed_chunks_mix() {
    let mut data = noise(0x8000, 5);
    data.extend_from_slice(&text(0x8000));
    data.extend_from_slice(&noise(10, 9));
    let stream = compress(&data).unwrap();
    let table = table_of(&stream);
    assert_eq!(table.len(), 3);
    assert!(table[0].is_stored());
    assert!(!table[1].is_stored());
    assert!(table[2].is_stored());
    assert_eq!(table[2].decompressed_size, 10);
    let bodies: usize = table.iter().map(|c| c.compressed_size as usize).sum();
    assert_eq!(stream.len(), 4 + 4 * 3 + bodies);
    assert_eq!(decompress(&stream), Ok(data));
}

#[test]
fn pack_chunk_keeps_the_shorter_form() {
    let raw = [1u8, 2, 3, 4, 5];
    let (chunk, body) = pack_chunk(&raw, vec![9, 9, 9, 9]);
    assert_eq!(chunk, Chunk { compressed_size: 4, decompressed_size: 5 });
    assert_eq!(body, vec![9, 9, 9, 9]);
}

#[test]
fn pack_chunk_stores_when_compression_gains_nothing() {
    let raw = [1u8, 2, 3, 4, 5];
    let (chunk, body) = pack_chunk(&raw, vec![9, 9, 9, 9, 9]);
    assert_eq!(chunk, Chunk { compressed_size: 5, decompressed_size: 5 });
    assert_eq!(body, raw.to_vec());
    let (chunk, body) = pack_chunk(&raw, vec![9; 40]);
    assert_eq!(chunk, Chunk { compressed_size: 5, decompressed_size: 5 });
    assert_eq!(body, raw.to_vec());
}

#[test]
fn decompress_ignores_the_reserved_word_and_what_follows_the_bodies() {
    let stream = vec![0xAB, 0xCD, 0x00, 0x01, 0x00, 0x03, 0x00, 0x03, 7, 8, 9, 0xFF, 0xFF];
    assert_eq!(decompress(&stream), Ok(vec![7, 8, 9]));
}

#[test]
fn decompress_takes_chunks_larger_than_the_writer_makes() {
    let data = text(0xFFFF);
    let zlib = miniz_oxide::deflate::compress_to_vec_zlib(&data, 6);
    let mut stream = vec![0x00, 0x01, 0x00, 0x02];
    push_be_u16(&mut stream, zlib.len() as u16);
    push_be_u16(&mut stream, 0xFFFF);
    push_be_u16(&mut stream, 0xFFFF);
    push_be_u16(&mut stream, 0xFFFF);
    stream.extend_from_slice(&zlib);
    stream.extend_from_slice(&data);
    let mut expected = data.clone();
    expected.extend_from_slice(&data);
    assert_eq!(decompress(&stream), Ok(expected));
}

#[test]
fn decompress_of_cut_table_is_io() {
    assert_eq!(decompress(&[]), Err(Error::Io));
    assert_eq!(decompress(&[0, 1, 0]), Err(Error::Io));
    assert_eq!(decompress(&[0, 1, 0, 1]), Err(Error::Io));
    assert_eq!(decompress(&[0, 1, 0, 1, 0, 3, 0]), Err(Error::Io));
    assert_eq!(decompress(&[0, 1, 0, 2, 0, 0, 0, 0]), Err(Error::Io));
    assert_eq!(read_chunk_table(&[0, 1, 0, 1, 0, 3, 0]), Err(Error::Io));
}

#[test]
fn decompress_of_cut_body_is_corruption() {
    assert_eq!(decompress(&[0, 1, 0, 1, 0, 3, 0, 3, 7, 8]), Err(Error::FormatCorruption));
    let stream = compress(&text(5000)).unwrap();
    assert_eq!(decompress(&stream[..stream.len() - 1]), Err(Error::FormatCorruption));
}

#[test]
fn decompress_of_bad_zlib_is_decompression_error() {
    let stream = vec![0, 1, 0, 1, 0, 4, 0, 9, 0xDE, 0xAD, 0xBE, 0xEF];
    assert_eq!(decompress(&stream), Err(Error::Decompression));
}

#[test]
fn decompress_of_damaged_chunk_is_decompression_error() {
    let data = text(5000);
    let mut stream = compress(&data).unwrap();
    let last = stream.len() - 1;
    stream[last] ^= 0x55;
    assert_eq!(decompress(&stream), Err(Error::Decompression));
}

#[test]
fn decompress_of_chunk_longer_than_said_is_decompression_error() {
    let zlib = miniz_oxide::deflate::compress_to_vec_zlib(&text(100), 9);
    let mut stream = vec![0, 1, 0, 1];
    push_be_u16(&mut stream, zlib.len() as u16);
    push_be_u16(&mut stream, 90);
    stream.extend_from_slice(&zlib);
    assert_eq!(decompress(&stream), Err(Error::Decompression));
}

#[test]
fn decompress_of_chunk_shorter_than_said_is_corruption() {
    let zlib = miniz_oxide::deflate::compress_to_vec_zlib(&text(100), 9);
    let mut stream = vec![0, 1, 0, 1];
    push_be_u16(&mut stream, zlib.len() as u16);
    push_be_u16(&mut stream, 120);
    stream.extend_from_slice(&zlib);
    assert_eq!(decompress(&stream), Err(Error::FormatCorruption));
}

#[test]
fn check_inflated_judges_status_then_size() {
    assert_eq!(check_inflated(InflateStatus::Done, 10, 10), Ok(()));
    assert_eq!(check_inflated(InflateStatus::Done, 9, 10), Err(Error::FormatCorruption));
    assert_eq!(check_inflated(InflateStatus::Done, 11, 10), Err(Error::FormatCorruption));
    for status in [
        InflateStatus::FailedCannotMakeProgress,
        InflateStatus::BadParam,
        InflateStatus::Adler32Mismatch,
        InflateStatus::Failed,
        InflateStatus::NeedsMoreInput,
        InflateStatus::HasMoreOutput,
    ] {
        assert_eq!(check_inflated(status, 10, 10), Err(Error::Decompression));
    }
}

#[test]
fn count_chunks_rounds_up() {
    assert_eq!(count_chunks(0), Ok(0));
    assert_eq!(count_chunks(1), Ok(1));
    assert_eq!(count_chunks(0x8000), Ok(1));
    assert_eq!(count_chunks(0x8001), Ok(2));
    assert_eq!(count_chunks(0x9000), Ok(2));
    assert_eq!(count_chunks(MAX_PAYLOAD - 1), Ok(0xFFFF));
    assert_eq!(count_chunks(MAX_PAYLOAD), Ok(0xFFFF));
}

#[test]
fn payload_with_too_many_chunks_is_unsupported() {
    assert_eq!(count_chunks(MAX_PAYLOAD + 1), Err(Error::UnsupportedInput));
    assert_eq!(count_chunks(usize::MAX), Err(Error::UnsupportedInput));
}
