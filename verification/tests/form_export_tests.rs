use std::str::FromStr;
use uefi_engine::ffs::EFI_SECTION_RAW;
use uefi_engine::guid::Guid;
use uefi_engine::hii::form_export::{display_mode, find_form_package, numeric_min_max_step, read_le_u64};
use uefi_engine::hii::ifr_builder::IfrBuilder;
use uefi_engine::hii::schema::DisplayMode;
use uefi_engine::types::{Action, FfsNode, FfsType, ParsingData};

#[test]
fn display_mode_reads_the_display_bits() {
    assert_eq!(display_mode(0x00, 1), DisplayMode::IntDec);
    assert_eq!(display_mode(0x10, 1), DisplayMode::UintDec);
    assert_eq!(display_mode(0x20, 2), DisplayMode::UintHex);
    assert_eq!(display_mode(0x30, 4), DisplayMode::UintDec);
    assert_eq!(display_mode(0x23, 8), DisplayMode::UintHex);
    assert_eq!(display_mode(0x03, 8), DisplayMode::IntDec);
}

#[test]
fn read_le_u64_stops_at_count_eight_bytes_and_the_end() {
    let b = [0x01, 0x02, 0x03, 0x04, 0x05, 0x06, 0x07, 0x08, 0x09, 0x0A];
    assert_eq!(read_le_u64(&b, 0, 2), 0x0201);
    assert_eq!(read_le_u64(&b, 1, 12), 0x0908_0706_0504_0302);
    assert_eq!(read_le_u64(&b, 8, 4), 0x0A09);
    assert_eq!(read_le_u64(&b, 10, 4), 0);
    assert_eq!(read_le_u64(&b, 3, 0), 0);
}

#[test]
fn numeric_range_is_read_from_the_opcode() {
    let mut b = IfrBuilder::new();
    b.emit_numeric(1, 2, 0x40, 1, 0, 0x10, 2, 3, 0x1FF, 7);
    let op = b.build();
    let (min, max, step) = numeric_min_max_step(&op, 0, op.len(), 2);
    assert_eq!((min, max, step), (3, 0x1FF, 7));
    let (min, max, step) = numeric_min_max_step(&op, 0, op.len() - 3, 2);
    assert_eq!((min, max, step), (3, 0xFF, 0));
}

fn section(body: Vec<u8>) -> FfsNode {
    FfsNode {
        guid: None,
        node_type: FfsType::Section,
        subtype: EFI_SECTION_RAW,
        offset: 0,
        header: vec![],
        body,
        tail: vec![],
        children: vec![],
        action: Action::NoAction,
        parsing_data: ParsingData::NoData,
        fixed: false,
        compressed: false,
        alignment_bytes: vec![],
    }
}

fn form_package(forms: &[u16]) -> Vec<u8> {
    let mut b = IfrBuilder::new();
    b.emit_form_set(&Guid::from_str("7B59104A-C00D-4158-87FF-F04D6396A915").unwrap(), 1, 2, &[]);
    for &f in forms {
        b.emit_form(f, 3);
        b.emit_end();
    }
    b.emit_end();
    let ifr = b.build();
    let len = 4 + ifr.len() as u32;
    let mut pkg = len.to_le_bytes()[0..3].to_vec();
    pkg.push(0x02);
    pkg.extend_from_slice(&ifr);
    pkg
}

#[test]
fn find_form_package_finds_the_package_declaring_the_form() {
    let pkg = form_package(&[0x10, 0x20]);
    let node = section(pkg.clone());
    assert_eq!(find_form_package(&node, 0x20), Some(&pkg[..]));
    assert_eq!(find_form_package(&node, 0x30), None);
    assert_eq!(find_form_package(&section(vec![0; 16]), 0x10), None);
}
