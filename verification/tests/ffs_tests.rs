
use uefi_engine::ffs::{
    calculate_checksum16, calculate_checksum8, crc32_guid, ffs_file_size, is_large_ffs,
    is_large_section, is_lzma_guid, is_recompressable_lzma_guid, is_tiano_guid, lzma_guid,
    lzma_hp_guid, lzma_ms_guid, lzmaf86_guid, size_to_uint24, tiano_guid, uint24_to_u32,
};
use uefi_engine::guid::Guid;

/// Upper-case textual form of a GUID (8-4-4-4-12, first three fields little-endian).
fn guid_to_upper_string(g: &Guid) -> String {
    let b = g.to_bytes();
    format!(
        "{:02X}{:02X}{:02X}{:02X}-{:02X}{:02X}-{:02X}{:02X}-{:02X}{:02X}-{:02X}{:02X}{:02X}{:02X}{:02X}{:02X}",
        b[3], b[2], b[1], b[0], b[5], b[4], b[7], b[6], b[8], b[9], b[10], b[11], b[12], b[13], b[14], b[15]
    )
}

#[test]
fn checksum8_known_vector() {
    let mut data = [0x01, 0x02, 0x03, 0x04, 0x00];
    let checksum = calculate_checksum8(&data);
    assert_eq!(checksum, 0xF6);
    if let Some(last) = data.last_mut() {
        *last = checksum;
    }
    assert_eq!(calculate_checksum8(&data), 0);
}

#[test]
fn checksum16_known_vector() {
    let data = [0x01, 0x00, 0x02, 0x00];
    assert_eq!(calculate_checksum16(&data), 0xFFFD);
}

#[test]
fn uint24_roundtrip() {
    let s = 0x123456u32;
    let b = size_to_uint24(s);
    assert_eq!(uint24_to_u32(b), s);
}

#[test]
fn large_section_threshold() {
    let small_hdr = vec![0x00, 0x00, 0x00, 0x00];
    assert!(!is_large_section(&small_hdr));
    let mut large_hdr = vec![0xFF, 0xFF, 0xFF, 0x00];
    large_hdr.extend_from_slice(&[0x00, 0x00, 0x00, 0x02]);
    assert!(is_large_section(&large_hdr));
}

#[test]
fn ffs_file_size_parsing() {
    let mut small_ffs = vec![0; 24];
    small_ffs[20..23].copy_from_slice(&size_to_uint24(0x000150));
    assert!(!is_large_ffs(&small_ffs));
    assert_eq!(ffs_file_size(&small_ffs), 0x000150);

    let mut large_ffs = vec![0; 32];
    large_ffs[20] = 0xFF;
    large_ffs[21] = 0xFF;
    large_ffs[22] = 0xFF;
    let large_size: u64 = 0x02000000;
    large_ffs[24..32].copy_from_slice(&large_size.to_le_bytes());
    assert!(is_large_ffs(&large_ffs));
    assert_eq!(ffs_file_size(&large_ffs), 0x02000000);
}

#[test]
fn well_known_guids_match_edk2() {
    assert_eq!(
        guid_to_upper_string(&lzma_guid()),
        "EE4E5898-3914-4259-9D6E-DC7BD79403CF"
    );
    assert_eq!(
        guid_to_upper_string(&tiano_guid()),
        "A31280AD-481E-41B6-95E8-127F4C984779"
    );
    assert_eq!(
        guid_to_upper_string(&lzmaf86_guid()),
        "D42AE6BD-1352-4BFB-909A-CA72A6EAE889"
    );
    assert_eq!(
        guid_to_upper_string(&crc32_guid()),
        "FC1BCDB0-7D31-49AA-936A-A4600D9DD083"
    );
    assert!(is_lzma_guid(&lzma_guid()));
    assert!(is_lzma_guid(&lzma_hp_guid()));
    assert!(is_lzma_guid(&lzma_ms_guid()));
    assert!(is_lzma_guid(&lzmaf86_guid()));
    assert!(!is_lzma_guid(&tiano_guid()));
    assert!(is_tiano_guid(&tiano_guid()));
}

#[test]
fn is_recompressable_lzma_guid_excludes_f86_and_tiano() {
    assert!(is_recompressable_lzma_guid(&lzma_guid()));
    assert!(is_recompressable_lzma_guid(&lzma_hp_guid()));
    assert!(is_recompressable_lzma_guid(&lzma_ms_guid()));
    assert!(!is_recompressable_lzma_guid(&lzmaf86_guid()));
    assert!(!is_recompressable_lzma_guid(&tiano_guid()));
}
