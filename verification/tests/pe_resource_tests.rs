use std::str::FromStr;
use uefi_engine::guid::Guid;
use uefi_engine::hii::ifr_builder::IfrBuilder;
use uefi_engine::hii::pe_resource::{
    bare_form_packages, hii_resource_blobs, hii_resource_ranges, rsrc_grow_plan,
    try_grow_rsrc_tail, PeLayout, RsrcGrowPlan,
};

fn rsrc_dir_header(named_entries: u16, id_entries: u16) -> [u8; 16] {
    let mut header = [0u8; 16];
    header[12..14].copy_from_slice(&named_entries.to_le_bytes());
    header[14..16].copy_from_slice(&id_entries.to_le_bytes());
    header
}

/// A PE32+ image whose only section is a `.rsrc` holding `blob` under a
/// resource type named `kind_name`.
fn synth_hii_pe(kind_name: &str, blob: &[u8]) -> Vec<u8> {
    let rsrc_rva: u32 = 0x1000;
    let mut rsrc = Vec::new();
    rsrc.extend_from_slice(&rsrc_dir_header(1, 0));
    rsrc.extend_from_slice(&0x8000_0048u32.to_le_bytes());
    rsrc.extend_from_slice(&0x8000_0018u32.to_le_bytes());
    rsrc.extend_from_slice(&rsrc_dir_header(0, 1));
    rsrc.extend_from_slice(&1u32.to_le_bytes());
    rsrc.extend_from_slice(&0x8000_0030u32.to_le_bytes());
    rsrc.extend_from_slice(&rsrc_dir_header(0, 1));
    rsrc.extend_from_slice(&0x409u32.to_le_bytes());
    rsrc.extend_from_slice(&0x80u32.to_le_bytes());
    rsrc.extend_from_slice(&(kind_name.len() as u16).to_le_bytes());
    for u in kind_name.encode_utf16() {
        rsrc.extend_from_slice(&u.to_le_bytes());
    }
    while rsrc.len() < 0x80 {
        rsrc.push(0);
    }
    rsrc.extend_from_slice(&(rsrc_rva + 0x90).to_le_bytes());
    rsrc.extend_from_slice(&(blob.len() as u32).to_le_bytes());
    rsrc.extend_from_slice(&0u32.to_le_bytes());
    rsrc.extend_from_slice(&0u32.to_le_bytes());
    while rsrc.len() < 0x90 {
        rsrc.push(0);
    }
    rsrc.extend_from_slice(blob);
    while rsrc.len() % 16 != 0 {
        rsrc.push(0);
    }

    let size_of_image = (rsrc_rva + rsrc.len() as u32).next_multiple_of(0x1000);
    let mut pe = vec![0u8; 0x170];
    pe[0] = b'M';
    pe[1] = b'Z';
    pe[0x3c..0x40].copy_from_slice(&0x40u32.to_le_bytes());
    pe[0x40..0x44].copy_from_slice(b"PE\0\0");
    pe[0x44..0x46].copy_from_slice(&0x8664u16.to_le_bytes());
    pe[0x46..0x48].copy_from_slice(&1u16.to_le_bytes());
    pe[0x54..0x56].copy_from_slice(&240u16.to_le_bytes());
    pe[0x58..0x5a].copy_from_slice(&0x20bu16.to_le_bytes());
    pe[0x78..0x7c].copy_from_slice(&0x1000u32.to_le_bytes());
    pe[0x7c..0x80].copy_from_slice(&16u32.to_le_bytes());
    pe[0x90..0x94].copy_from_slice(&size_of_image.to_le_bytes());
    pe[0xc4..0xc8].copy_from_slice(&16u32.to_le_bytes());
    pe[0xd8..0xdc].copy_from_slice(&rsrc_rva.to_le_bytes());
    pe[0xdc..0xe0].copy_from_slice(&(rsrc.len() as u32).to_le_bytes());
    pe[0x148..0x14f].copy_from_slice(b".rsrc\0\0");
    pe[0x150..0x154].copy_from_slice(&(rsrc.len() as u32).to_le_bytes());
    pe[0x154..0x158].copy_from_slice(&rsrc_rva.to_le_bytes());
    pe[0x158..0x15c].copy_from_slice(&(rsrc.len() as u32).to_le_bytes());
    pe[0x15c..0x160].copy_from_slice(&0x170u32.to_le_bytes());
    pe[0x16c..0x170].copy_from_slice(&0x4000_0040u32.to_le_bytes());
    pe.extend_from_slice(&rsrc);
    pe
}

/// A string package with one string; stands in for an HII resource blob.
fn string_blob() -> Vec<u8> {
    let mut buf = vec![0x00, 0x00, 0x00, 0x04];
    buf.extend_from_slice(&12u32.to_le_bytes());
    buf.extend_from_slice(&12u32.to_le_bytes());
    buf.push(0x10);
    buf.extend_from_slice(b"first");
    buf.extend_from_slice(&[0x00, 0x00]);
    let len = buf.len() as u32;
    buf[0..3].copy_from_slice(&len.to_le_bytes()[0..3]);
    buf
}

/// A form package with one FORM_SET holding one form.
fn bare_form() -> Vec<u8> {
    let mut b = IfrBuilder::new();
    let g = Guid::from_str("A1B2C3D4-E5F6-7890-ABCD-EF1234567890").unwrap();
    b.emit_form_set(&g, 1, 2, &[]);
    b.emit_form(7, 3);
    b.emit_end();
    b.emit_end();
    let ifr = b.build();
    let len = 4 + ifr.len() as u32;
    let mut pkg = len.to_le_bytes()[0..3].to_vec();
    pkg.push(0x02);
    pkg.extend_from_slice(&ifr);
    pkg
}

fn le_u32(b: &[u8], off: usize) -> u32 {
    u32::from_le_bytes(b[off..off + 4].try_into().unwrap())
}

#[test]
fn bare_scan_finds_valid_form_package_in_pe_body() {
    let form = bare_form();
    let mut body = vec![0x11u8; 64];
    body.extend_from_slice(&form);
    body.extend_from_slice(&[0x22; 32]);
    let found = bare_form_packages(&body, &[]);
    assert_eq!(found.len(), 1);
    assert_eq!(found[0], &form[..]);
}

#[test]
fn bare_scan_rejects_shallow_false_positive() {
    let mut body = vec![0u8; 16];
    body.extend_from_slice(&[27u8, 0, 0, 0x02, 0x0E]);
    body.extend_from_slice(&[0u8; 22]);
    assert!(bare_form_packages(&body, &[]).is_empty());
}

#[test]
fn bare_scan_skips_past_accepted_or_covered_pattern() {
    let form = bare_form();
    let mut body = vec![0u8; 8];
    body.extend_from_slice(&form);
    body.extend_from_slice(&[0x33; 4]);
    assert_eq!(bare_form_packages(&body, &[(0, body.len())]).len(), 0);
    assert_eq!(bare_form_packages(&body, &[]).len(), 1);
}

#[test]
fn bare_scan_finds_two_packages_and_skips_a_covered_one() {
    let form = bare_form();
    let mut body = vec![0x44u8; 3];
    body.extend_from_slice(&form);
    let second = body.len();
    body.extend_from_slice(&form);
    body.extend_from_slice(&form);
    assert_eq!(bare_form_packages(&body, &[]).len(), 3);
    assert_eq!(bare_form_packages(&body, &[(second, 1)]).len(), 2);
}

#[test]
fn extracts_hii_blob_from_synthetic_pe() {
    let blob = string_blob();
    let pe = synth_hii_pe("HII", &blob);
    let blobs = hii_resource_blobs(&pe);
    assert_eq!(blobs.len(), 1);
    assert_eq!(blobs[0], &blob[..]);
}

#[test]
fn ranges_point_at_blob_bytes() {
    let blob = string_blob();
    let pe = synth_hii_pe("HII", &blob);
    let ranges = hii_resource_ranges(&pe);
    assert_eq!(ranges.len(), 1);
    let (off, len) = ranges[0];
    assert_eq!(&pe[off..off + len], &blob[..]);
}

#[test]
fn non_pe_input_returns_empty() {
    assert!(hii_resource_blobs(&[]).is_empty());
    assert!(hii_resource_blobs(b"MZnotape").is_empty());
    assert!(hii_resource_blobs(&[0u8; 64]).is_empty());
}

#[test]
fn pe_without_hii_type_returns_empty() {
    let pe = synth_hii_pe("REGISTRY", &string_blob());
    assert!(hii_resource_blobs(&pe).is_empty());
    assert!(hii_resource_ranges(&pe).is_empty());
}

#[test]
fn pe_without_resource_directory_returns_empty() {
    let mut pe = synth_hii_pe("HII", &string_blob());
    pe[0xd8..0xdc].copy_from_slice(&0u32.to_le_bytes());
    assert!(hii_resource_blobs(&pe).is_empty());
}

#[test]
fn bare_scan_drops_candidates_covered_by_resource_ranges() {
    let form = bare_form();
    let pe = synth_hii_pe("HII", &form);
    let exclude = hii_resource_ranges(&pe);
    assert!(!exclude.is_empty());
    let found = bare_form_packages(&pe, &exclude);
    assert!(
        !found.contains(&&form[..]),
        "resource-covered copy must be deduplicated"
    );
    assert_eq!(bare_form_packages(&pe, &[]).len(), 1);
}

#[test]
fn grow_rsrc_tail_updates_headers_and_keeps_ranges() {
    let blob = string_blob();
    let mut pe = synth_hii_pe("HII", &blob);
    let before = pe.clone();
    let ranges_before = hii_resource_ranges(&pe);
    assert_eq!(ranges_before.len(), 1);
    let file_align = le_u32(&pe, 0x7c) as usize;
    let old_virt = le_u32(&pe, 0x150);
    let old_raw = le_u32(&pe, 0x158);
    assert!(try_grow_rsrc_tail(&mut pe, 64));
    let growth = 64usize.next_multiple_of(file_align);
    assert_eq!(pe.len(), before.len() + growth);
    assert_eq!(le_u32(&pe, 0x150), old_virt + growth as u32);
    assert_eq!(le_u32(&pe, 0x158), old_raw + growth as u32);
    assert_eq!(le_u32(&pe, 0x15c), 0x170);
    assert_eq!(
        le_u32(&pe, 0x90),
        (0x1000 + old_virt + growth as u32).next_multiple_of(0x1000)
    );
    assert_eq!(pe[0xd8..0xe0], before[0xd8..0xe0]);
    assert!(pe[before.len()..].iter().all(|&b| b == 0));
    let (blob_off, blob_len) = ranges_before[0];
    assert_eq!(&pe[blob_off..blob_off + blob_len], &blob[..]);
    assert_eq!(hii_resource_ranges(&pe), ranges_before);
}

#[test]
fn grow_rsrc_tail_refuses_non_pe_input() {
    let mut empty: Vec<u8> = Vec::new();
    assert!(!try_grow_rsrc_tail(&mut empty, 64));
    assert!(empty.is_empty());
    let mut junk = b"MZnotape".to_vec();
    assert!(!try_grow_rsrc_tail(&mut junk, 64));
    assert_eq!(junk, b"MZnotape");
}

#[test]
fn grow_rsrc_tail_refuses_when_rsrc_not_last_section() {
    let base = synth_hii_pe("HII", &string_blob());
    let raw_size = le_u32(&base, 0x158) as usize;
    let mut pe = Vec::with_capacity(base.len() + 40 + 0x40);
    pe.extend_from_slice(&base[..0x170]);
    pe.extend_from_slice(&[0u8; 40]);
    pe.extend_from_slice(&base[0x170..]);
    pe.extend_from_slice(&[0u8; 0x40]);
    pe[0x46..0x48].copy_from_slice(&2u16.to_le_bytes());
    pe[0x15c..0x160].copy_from_slice(&0x198u32.to_le_bytes());
    pe[0x170..0x174].copy_from_slice(b".dmy");
    pe[0x178..0x17c].copy_from_slice(&0x40u32.to_le_bytes());
    pe[0x17c..0x180].copy_from_slice(&0x2000u32.to_le_bytes());
    pe[0x180..0x184].copy_from_slice(&0x40u32.to_le_bytes());
    pe[0x184..0x188].copy_from_slice(&(0x198u32 + raw_size as u32).to_le_bytes());
    assert_eq!(hii_resource_ranges(&pe).len(), 1);
    let snapshot = pe.clone();
    assert!(!try_grow_rsrc_tail(&mut pe, 64));
    assert_eq!(pe, snapshot);
}

#[test]
fn grow_rsrc_tail_zero_delta_is_noop() {
    let mut pe = synth_hii_pe("HII", &string_blob());
    let before = pe.clone();
    assert!(try_grow_rsrc_tail(&mut pe, 0));
    assert_eq!(pe, before);
}

#[test]
fn grow_rsrc_tail_accumulates_across_calls() {
    let mut pe = synth_hii_pe("HII", &string_blob());
    let before = pe.clone();
    let ranges_before = hii_resource_ranges(&pe);
    let file_align = le_u32(&pe, 0x7c) as usize;
    let old_raw = le_u32(&pe, 0x158);
    assert!(try_grow_rsrc_tail(&mut pe, 20));
    assert!(try_grow_rsrc_tail(&mut pe, 30));
    let growth = 20usize.next_multiple_of(file_align) + 30usize.next_multiple_of(file_align);
    assert_eq!(pe.len(), before.len() + growth);
    assert_eq!(le_u32(&pe, 0x158), old_raw + growth as u32);
    assert_eq!(hii_resource_ranges(&pe), ranges_before);
}

/// A 0x200-byte image: PE header at 0x40, a 240-byte optional header, file
/// alignment 0x10 and section alignment 0x1000.
fn header_only(len: usize) -> Vec<u8> {
    let mut pe = vec![0u8; len];
    pe[0x3c..0x40].copy_from_slice(&0x40u32.to_le_bytes());
    pe[0x54..0x56].copy_from_slice(&240u16.to_le_bytes());
    pe[0x78..0x7c].copy_from_slice(&0x1000u32.to_le_bytes());
    pe[0x7c..0x80].copy_from_slice(&0x10u32.to_le_bytes());
    pe
}

#[test]
fn grow_plan_rounds_to_file_alignment_and_recomputes_image_size() {
    let pe = header_only(0x200);
    let layout = PeLayout {
        resource_rva: Some(0x3000),
        sections: vec![(0x1000, 0x80, 0x80, 0x100), (0x3000, 0x50, 0x80, 0x180)],
    };
    let plan = rsrc_grow_plan(&layout, &pe, 0x21).unwrap();
    assert_eq!(
        plan,
        RsrcGrowPlan {
            section_off: 0x58 + 240 + 40,
            size_of_image_off: 0x58 + 56,
            old_virt: 0x50,
            old_raw: 0x80,
            pad: 0x30,
            new_image: Some(0x4000),
        }
    );
}

#[test]
fn grow_plan_keeps_image_size_when_rsrc_is_not_last_in_memory() {
    let pe = header_only(0x200);
    let layout = PeLayout {
        resource_rva: Some(0x1010),
        sections: vec![(0x1000, 0x80, 0x100, 0x100), (0x3000, 0x50, 0x0, 0x0)],
    };
    let plan = rsrc_grow_plan(&layout, &pe, 0x10).unwrap();
    assert_eq!(plan.section_off, 0x58 + 240);
    assert_eq!(plan.pad, 0x10);
    assert_eq!(plan.new_image, None);
}

#[test]
fn grow_plan_refuses_missing_directory_and_misplaced_raw_data() {
    let pe = header_only(0x200);
    let no_dir = PeLayout { resource_rva: None, sections: vec![(0x1000, 0x80, 0x100, 0x100)] };
    assert_eq!(rsrc_grow_plan(&no_dir, &pe, 1), None);
    let not_tail = PeLayout {
        resource_rva: Some(0x1000),
        sections: vec![(0x1000, 0x80, 0x80, 0x100)],
    };
    assert_eq!(rsrc_grow_plan(&not_tail, &pe, 1), None);
    let overlapped = PeLayout {
        resource_rva: Some(0x1000),
        sections: vec![(0x1000, 0x80, 0x100, 0x100), (0x2000, 0x10, 0x10, 0x1F8)],
    };
    assert_eq!(rsrc_grow_plan(&overlapped, &pe, 1), None);
    let unspanned = PeLayout {
        resource_rva: Some(0x5000),
        sections: vec![(0x1000, 0x80, 0x100, 0x100)],
    };
    assert_eq!(rsrc_grow_plan(&unspanned, &pe, 1), None);
}

#[test]
fn grow_plan_with_unaligned_file_alignment_pads_exactly() {
    let mut pe = header_only(0x200);
    pe[0x7c..0x80].copy_from_slice(&0x30u32.to_le_bytes());
    let layout = PeLayout {
        resource_rva: Some(0x1000),
        sections: vec![(0x1000, 0x80, 0x100, 0x100)],
    };
    let plan = rsrc_grow_plan(&layout, &pe, 0x21).unwrap();
    assert_eq!(plan.pad, 0x21);
}

use uefi_engine::ffs::{EFI_SECTION_PE32, EFI_SECTION_RAW};
use uefi_engine::hii::{form_package_ranges, pe_resource_form_packages};
use uefi_engine::types::{Action, FfsNode, FfsType, ParsingData};

/// A package list (GUID, total length) holding `pkgs` and the END package.
fn hii_list(pkgs: &[&[u8]]) -> Vec<u8> {
    let mut b = vec![0x5Au8; 16];
    let total = 20 + 4 + pkgs.iter().map(|p| p.len()).sum::<usize>();
    b.extend_from_slice(&(total as u32).to_le_bytes());
    for p in pkgs {
        b.extend_from_slice(p);
    }
    b.extend_from_slice(&[4, 0, 0, 0xDF]);
    b
}

fn section(subtype: u8, body: Vec<u8>) -> FfsNode {
    FfsNode {
        guid: None,
        node_type: FfsType::Section,
        subtype,
        offset: 0,
        header: vec![],
        body,
        tail: vec![],
        children: vec![],
        action: Action::NoAction,
        parsing_data: ParsingData::NoData,
        fixed: false,
        compressed: false,
        alignment_bytes: vec![],
    }
}

#[test]
fn resource_form_packages_are_located_inside_the_list() {
    let form = bare_form();
    let strings = string_blob();
    let list = hii_list(&[&strings, &form]);
    let pe = synth_hii_pe("HII", &list);
    let (off, _) = hii_resource_ranges(&pe)[0];
    let found = pe_resource_form_packages(&pe).unwrap();
    assert_eq!(found, vec![(off + 20 + strings.len(), form.len())]);
    let (at, len) = found[0];
    assert_eq!(&pe[at..at + len], &form[..]);
}

#[test]
fn resource_without_form_packages_has_none() {
    let strings = string_blob();
    let pe = synth_hii_pe("HII", &hii_list(&[&strings]));
    assert_eq!(pe_resource_form_packages(&pe), None);
    assert_eq!(pe_resource_form_packages(b"MZnotape"), None);
}

#[test]
fn form_package_ranges_follow_the_section_kind() {
    let form = bare_form();
    assert_eq!(
        form_package_ranges(&section(EFI_SECTION_RAW, form.clone())),
        vec![(0, form.len())]
    );
    assert!(form_package_ranges(&section(EFI_SECTION_RAW, vec![1, 2, 3, 4, 5, 6])).is_empty());
    let strings = string_blob();
    let pe = synth_hii_pe("HII", &hii_list(&[&form, &strings]));
    let (off, _) = hii_resource_ranges(&pe)[0];
    assert_eq!(
        form_package_ranges(&section(EFI_SECTION_PE32, pe.clone())),
        vec![(off + 20, form.len())]
    );
    assert!(form_package_ranges(&section(0x17, pe)).is_empty());
    assert_eq!(
        form_package_ranges(&section(0x17, form.clone())),
        vec![(0, form.len())]
    );
}
