use uefi_engine::builder::{
    build_image, build_section, recompute_ffs_checksums, set_ffs_size, subtree_dirty,
    BuilderError, FFS_ATTRIB_CHECKSUM,
};
use uefi_engine::ffs::{
    calculate_checksum8, tiano_guid, uint24_to_u32, EFI_SECTION_COMPRESSION,
    EFI_SECTION_GUID_DEFINED, EFI_SECTION_RAW,
};
use uefi_engine::guid::Guid;
use uefi_engine::types::{
    Action, FfsNode, FfsType, GuidedSectionParsingData, Image, ImageMode, ParsingData,
    VolumeParsingData,
};

fn removed_section_image(remove: bool) -> Image {
    let section_action = if remove {
        Action::Remove
    } else {
        Action::Rebuild
    };
    let section = FfsNode {
        guid: None,
        node_type: FfsType::Section,
        subtype: EFI_SECTION_RAW,
        offset: 0,
        header: vec![0u8; 4],
        body: vec![0xAAu8; 8],
        tail: vec![],
        children: vec![],
        action: section_action,
        parsing_data: ParsingData::NoData,
        fixed: false,
        compressed: false,
        alignment_bytes: vec![],
    };
    let file = FfsNode {
        guid: None,
        node_type: FfsType::File,
        subtype: 0x07,
        offset: 0,
        header: vec![0u8; 24],
        body: vec![],
        tail: vec![],
        children: vec![section],
        action: Action::Rebuild,
        parsing_data: ParsingData::NoData,
        fixed: false,
        compressed: false,
        alignment_bytes: vec![],
    };
    let volume = FfsNode {
        guid: None,
        node_type: FfsType::Volume,
        subtype: 0,
        offset: 0,
        header: vec![0u8; 56],
        body: vec![0xFFu8; 128],
        tail: vec![],
        children: vec![file],
        action: Action::Rebuild,
        parsing_data: ParsingData::Volume(VolumeParsingData {
            extended_header_guid: None,
            alignment: 0,
            ffs_version: 2,
            empty_byte: 0xFF,
            revision: 2,
        }),
        fixed: false,
        compressed: false,
        alignment_bytes: vec![],
    };
    let root = FfsNode {
        guid: None,
        node_type: FfsType::Image,
        subtype: 0,
        offset: 0,
        header: vec![],
        body: vec![],
        tail: vec![],
        children: vec![volume],
        action: Action::NoAction,
        parsing_data: ParsingData::NoData,
        fixed: false,
        compressed: false,
        alignment_bytes: vec![],
    };
    Image {
        image_id: "img1".into(),
        session_id: "s1".into(),
        root,
        mode: ImageMode::Write,
    }
}

#[test]
fn build_section_skips_removed() {
    let img = removed_section_image(true);
    let out = build_image(&img).unwrap();
    assert!(
        !out.windows(8).any(|w| w.iter().all(|&b| b == 0xAA)),
        "removed section body must not appear in output"
    );
}

#[test]
fn build_section_emits_rebuilt_when_not_removed() {
    let img = removed_section_image(false);
    let out = build_image(&img).unwrap();
    assert!(
        out.windows(8).any(|w| w.iter().all(|&b| b == 0xAA)),
        "rebuilt (non-removed) section body must appear in output"
    );
}

#[test]
fn rebuild_file_recomputes_size_and_header_checksum() {
    let guid = Guid::try_parse("5c60f367-a505-419a-859e-2a4ff6ca6fe5").unwrap();
    let mut header = vec![0u8; 24];
    header[0..16].copy_from_slice(&guid.to_bytes());
    header[18] = 0x01;
    header[19] = 0x00;
    let body = vec![0xAAu8; 16];
    let total = header.len() + body.len();
    set_ffs_size(&mut header, total);
    recompute_ffs_checksums(&mut header, &body);
    assert_eq!(
        uint24_to_u32([header[20], header[21], header[22]]),
        total as u32
    );
    let mut check = header.clone();
    check[16] = 0;
    let s = check.iter().fold(0u8, |a, &b| a.wrapping_add(b));
    assert_eq!(s.wrapping_add(header[16]), 0);
}

#[test]
fn rebuild_file_with_checksum_attribute_uses_body_checksum() {
    let guid = Guid::try_parse("5c60f367-a505-419a-859e-2a4ff6ca6fe5").unwrap();
    let mut header = vec![0u8; 24];
    header[0..16].copy_from_slice(&guid.to_bytes());
    header[18] = 0x01;
    header[19] = FFS_ATTRIB_CHECKSUM;
    let body = vec![0x01u8, 0x02, 0x03];
    recompute_ffs_checksums(&mut header, &body);
    assert_eq!(header[17], calculate_checksum8(&body));
}

fn leaf_section(action: Action) -> FfsNode {
    FfsNode {
        guid: None,
        node_type: FfsType::Section,
        subtype: EFI_SECTION_RAW,
        offset: 0,
        header: vec![0u8; 4],
        body: vec![0xAA; 8],
        tail: vec![],
        children: vec![],
        action,
        parsing_data: ParsingData::NoData,
        fixed: false,
        compressed: false,
        alignment_bytes: vec![],
    }
}

#[test]
fn subtree_dirty_false_for_clean_tree() {
    assert!(!subtree_dirty(&leaf_section(Action::NoAction)));
}

#[test]
fn subtree_dirty_true_for_dirty_descendant() {
    let mut parent = leaf_section(Action::NoAction);
    parent.children = vec![leaf_section(Action::Replace)];
    assert!(subtree_dirty(&parent));
}

#[test]
fn subtree_dirty_true_for_own_action() {
    assert!(subtree_dirty(&leaf_section(Action::Rebuild)));
}

fn guided_node(guid: Guid, action: Action) -> FfsNode {
    FfsNode {
        guid: None,
        node_type: FfsType::Section,
        subtype: EFI_SECTION_GUID_DEFINED,
        offset: 0,
        header: vec![0u8; 4],
        body: vec![],
        tail: vec![],
        children: vec![leaf_section(Action::NoAction)],
        action,
        parsing_data: ParsingData::GuidedSection(GuidedSectionParsingData {
            guid,
            dictionary_size: 0,
        }),
        fixed: false,
        compressed: false,
        alignment_bytes: vec![],
    }
}

#[test]
fn dirty_tiano_guided_errors_recompression_unsupported() {
    let node = guided_node(tiano_guid(), Action::Rebuild);
    let mut out = Vec::new();
    let err = build_section(&node, &mut out).unwrap_err();
    assert!(matches!(err, BuilderError::RecompressionUnsupported));
}

#[test]
fn dirty_compression_section_errors_recompression_unsupported() {
    let mut node = leaf_section(Action::Rebuild);
    node.subtype = EFI_SECTION_COMPRESSION;
    node.children = vec![leaf_section(Action::NoAction)];
    let mut out = Vec::new();
    let err = build_section(&node, &mut out).unwrap_err();
    assert!(matches!(err, BuilderError::RecompressionUnsupported));
}

#[test]
fn clean_tree_rebuilds_byte_identical() {
    let mut img = removed_section_image(false);
    img.root.children[0].action = Action::NoAction;
    img.root.children[0].children[0].action = Action::NoAction;
    img.root.children[0].children[0].children[0].action = Action::NoAction;
    let out = build_image(&img).unwrap();
    let mut expected = vec![0u8; 56];
    expected.extend_from_slice(&[0xFFu8; 128]);
    assert_eq!(out, expected);
}

#[test]
fn rebuilt_section_declares_its_length() {
    let node = leaf_section(Action::Rebuild);
    let mut out = Vec::new();
    build_section(&node, &mut out).unwrap();
    assert_eq!(out.len(), 12);
    assert_eq!(uint24_to_u32([out[0], out[1], out[2]]), 12);
}

#[test]
fn rebuilt_volume_keeps_its_extent_and_pads_with_fill() {
    let img = removed_section_image(false);
    let out = build_image(&img).unwrap();
    assert_eq!(out.len(), 56 + 128);
    assert_eq!(out[56 + 24 + 12..].iter().filter(|&&b| b != 0xFF).count(), 0);
}

#[test]
fn volume_content_beyond_extent_is_size_mismatch() {
    let mut img = removed_section_image(false);
    img.root.children[0].body = vec![0xFFu8; 8];
    assert!(matches!(build_image(&img), Err(BuilderError::SizeMismatch)));
}

use uefi_engine::compress::compress_lzma;
use uefi_engine::ffs::lzma_guid;

#[test]
fn dirty_lzma_guided_section_is_recompressed_behind_its_prefix() {
    let mut node = guided_node(lzma_guid(), Action::Rebuild);
    let mut body = vec![0x5Au8; 20];
    body[16..18].copy_from_slice(&24u16.to_le_bytes());
    node.body = body.clone();
    let mut children = vec![0u8; 4];
    children.extend_from_slice(&[0xAA; 8]);
    let stream = compress_lzma(&children).unwrap();
    let mut out = vec![0xEE];
    build_section(&node, &mut out).unwrap();
    let total = 4 + 20 + stream.len();
    assert_eq!(out.len(), 1 + total);
    assert_eq!(out[0], 0xEE);
    assert_eq!(uint24_to_u32([out[1], out[2], out[3]]) as usize, total);
    assert_eq!(&out[5..25], &body[..]);
    assert_eq!(&out[25..], &stream[..]);
}

#[test]
fn lzma_guided_section_without_a_full_prefix_is_refused() {
    let mut node = guided_node(lzma_guid(), Action::Rebuild);
    node.body = vec![0u8; 18];
    let mut out = Vec::new();
    let err = build_section(&node, &mut out).unwrap_err();
    assert!(matches!(err, BuilderError::RecompressionUnsupported));
    assert!(out.is_empty());
}
