use uefi_engine::decompress::{decompress, lzma_dictionary_size, DecompressError};

#[test]
fn decompress_not_compressed() {
    let data = vec![0x01, 0x02, 0x03];
    assert_eq!(decompress(&data, 0).unwrap(), data);
}

#[test]
fn decompress_unsupported() {
    assert!(decompress(&[], 0xFF).is_err());
}

#[test]
fn decompress_lzma_short_stream_is_corrupted() {
    assert_eq!(decompress(&[0x5D, 0, 0, 1, 0], 2), Err(DecompressError::Corrupted));
}

#[test]
fn decompress_lzma_garbage_is_corrupted() {
    let mut data = vec![0xFFu8; 13];
    data.extend_from_slice(&[0xAB; 32]);
    assert_eq!(decompress(&data, 2), Err(DecompressError::Corrupted));
}

#[test]
fn lzma_dictionary_size_reads_header() {
    assert_eq!(lzma_dictionary_size(&[0x5D, 0x00, 0x00, 0x00, 0x01, 0xAA]), 0x0100_0000);
    assert_eq!(lzma_dictionary_size(&[0x5D, 0x00, 0x00]), 0);
}

#[test]
fn decompress_tiano_empty_stream_ok() {
    assert_eq!(decompress(&[0; 16], 1).unwrap(), Vec::<u8>::new());
}

#[test]
fn decompress_tiano_block_of_one_literal() {
    // One block whose literal table holds only 'A' (code length 0), so
    // every code is 'A' and no bit is consumed per symbol.
    let mut data = Vec::new();
    data.extend_from_slice(&7u32.to_le_bytes());
    data.extend_from_slice(&5u32.to_le_bytes());
    data.extend_from_slice(&[0xFF, 0xFF, 0x00, 0x00, 0x04, 0x10, 0x00]);
    assert_eq!(decompress(&data, 1).unwrap(), b"AAAAA".to_vec());
}

#[test]
fn decompress_tiano_refuses_short_or_truncated_input() {
    assert!(matches!(decompress(&[0; 7], 1), Err(DecompressError::Corrupted)));
    let mut data = Vec::new();
    data.extend_from_slice(&9u32.to_le_bytes());
    data.extend_from_slice(&5u32.to_le_bytes());
    data.extend_from_slice(&[0x00; 4]);
    assert!(matches!(decompress(&data, 1), Err(DecompressError::Corrupted)));
}
