use std::str::FromStr;
use uefi_engine::ffs::{EFI_SECTION_PE32, EFI_SECTION_RAW};
use uefi_engine::guid::Guid;
use uefi_engine::hii::gates::GateTarget;
use uefi_engine::hii::opcodes::{
    IFR_END_OP, IFR_EQUAL_OP, IFR_FORM_OP, IFR_FORM_SET_OP, IFR_REF_OP, IFR_SUPPRESS_IF_OP,
    IFR_TRUE_OP, IFR_UINT64_OP, PACKAGE_FORMS,
};
use uefi_engine::hii::unlock::{flip_text, hex, pkg_off, unlock_section};
use uefi_engine::hii::gates::PlannedFlip;
use uefi_engine::hii::HiiError;

const FORMSET_GUID: &str = "7B59104A-C00D-4158-87FF-F04D6396A915";

fn opcode(op_code: u8, scope: bool, payload: &[u8]) -> Vec<u8> {
    let mut v = Vec::with_capacity(payload.len() + 2);
    v.push(op_code);
    v.push(((payload.len() + 2) as u8) | if scope { 0x80 } else { 0 });
    v.extend_from_slice(payload);
    v
}

fn form_set(title: u16) -> Vec<u8> {
    let g = Guid::from_str(FORMSET_GUID).unwrap();
    let mut p = Vec::new();
    p.extend_from_slice(&g.to_bytes());
    p.extend_from_slice(&title.to_le_bytes());
    p.extend_from_slice(&0u16.to_le_bytes());
    p.push(0u8);
    opcode(IFR_FORM_SET_OP, true, &p)
}

fn form(id: u16, title: u16) -> Vec<u8> {
    opcode(IFR_FORM_OP, true, &[id.to_le_bytes(), title.to_le_bytes()].concat())
}

fn end() -> Vec<u8> {
    vec![IFR_END_OP, 0x02]
}

fn uint64(v: u64) -> Vec<u8> {
    let mut b = vec![IFR_UINT64_OP, 0x0A];
    b.extend_from_slice(&v.to_le_bytes());
    b
}

fn ref_op(form_id: u16, question_id: u16) -> Vec<u8> {
    let mut p = vec![0u8; 11];
    p[4..6].copy_from_slice(&question_id.to_le_bytes());
    let mut v = vec![IFR_REF_OP, 0x0F];
    v.extend_from_slice(&p);
    v.extend_from_slice(&form_id.to_le_bytes());
    v
}

fn package(ifr: &[u8]) -> Vec<u8> {
    let total = 4 + ifr.len();
    let mut b = vec![
        (total & 0xFF) as u8,
        ((total >> 8) & 0xFF) as u8,
        ((total >> 16) & 0xFF) as u8,
        PACKAGE_FORMS,
    ];
    b.extend_from_slice(ifr);
    b
}

/// Form 10002 holds a REF to form 10029 under `SUPPRESS_IF <cond>`.
fn gated_ref(cond: Vec<u8>) -> Vec<u8> {
    let mut ifr = form_set(7);
    ifr.extend(form(10002, 20));
    ifr.extend(opcode(IFR_SUPPRESS_IF_OP, true, &[]));
    ifr.extend(cond);
    ifr.extend(ref_op(10029, 0x003A));
    ifr.extend(end());
    ifr.extend(end());
    ifr.extend(form(10029, 21));
    ifr.extend(end());
    ifr.extend(end());
    package(&ifr)
}

fn equal_ones() -> Vec<u8> {
    [uint64(1), uint64(1), vec![IFR_EQUAL_OP, 0x02]].concat()
}

const TARGET: GateTarget = GateTarget { form_id: 10029, question_id: None };

#[test]
fn unlock_flips_the_gate_in_place() {
    let mut body = gated_ref(equal_ones());
    let before = body.clone();
    let u = unlock_section(EFI_SECTION_RAW, &mut body, &TARGET).unwrap();
    assert_eq!(u.gates.len(), 1);
    assert_eq!(u.applied, vec!["pkg+0x2f: 01 -> 02".to_string()]);
    assert_eq!(body.len(), before.len());
    assert_eq!(body[0x2f], 2);
    for i in 0..body.len() {
        if i != 0x2f {
            assert_eq!(body[i], before[i]);
        }
    }
}

#[test]
fn unlock_twice_leaves_an_unlocked_gate_alone() {
    let mut body = gated_ref(equal_ones());
    unlock_section(EFI_SECTION_RAW, &mut body, &TARGET).unwrap();
    let once = body.clone();
    let u = unlock_section(EFI_SECTION_RAW, &mut body, &TARGET).unwrap();
    assert_eq!(u.gates.len(), 1);
    assert!(u.applied.is_empty());
    assert_eq!(body, once);
}

#[test]
fn unlock_refuses_an_unflippable_gate_without_changes() {
    let mut body = gated_ref(vec![IFR_TRUE_OP, 0x02]);
    let before = body.clone();
    let e = unlock_section(EFI_SECTION_RAW, &mut body, &TARGET).unwrap_err();
    match e {
        HiiError::GateExpressionUnsupported(m) => {
            assert!(m.contains("is not a hardware-validated flip class"), "{m}");
        }
        other => panic!("unexpected {other:?}"),
    }
    assert_eq!(body, before);
}

#[test]
fn unlock_without_gates_is_ok_and_changes_nothing() {
    let mut body = gated_ref(equal_ones());
    let before = body.clone();
    let u = unlock_section(EFI_SECTION_RAW, &mut body, &GateTarget { form_id: 4242, question_id: None })
        .unwrap();
    assert!(u.gates.is_empty() && u.applied.is_empty());
    assert_eq!(body, before);
    let mut junk = vec![1u8, 2, 3];
    let u = unlock_section(EFI_SECTION_RAW, &mut junk, &TARGET).unwrap();
    assert!(u.gates.is_empty());
    assert_eq!(junk, vec![1u8, 2, 3]);
}

fn rsrc_dir_header(named_entries: u16, id_entries: u16) -> [u8; 16] {
    let mut header = [0u8; 16];
    header[12..14].copy_from_slice(&named_entries.to_le_bytes());
    header[14..16].copy_from_slice(&id_entries.to_le_bytes());
    header
}

/// A PE32+ image whose only section is a `.rsrc` holding `blob` under a
/// resource type named `kind_name`.
fn synth_hii_pe(kind_name: &str, blob: &[u8]) -> Vec<u8> {
    let rsrc_rva: u32 = 0x1000;
    let mut rsrc = Vec::new();
    rsrc.extend_from_slice(&rsrc_dir_header(1, 0));
    rsrc.extend_from_slice(&0x8000_0048u32.to_le_bytes());
    rsrc.extend_from_slice(&0x8000_0018u32.to_le_bytes());
    rsrc.extend_from_slice(&rsrc_dir_header(0, 1));
    rsrc.extend_from_slice(&1u32.to_le_bytes());
    rsrc.extend_from_slice(&0x8000_0030u32.to_le_bytes());
    rsrc.extend_from_slice(&rsrc_dir_header(0, 1));
    rsrc.extend_from_slice(&0x409u32.to_le_bytes());
    rsrc.extend_from_slice(&0x80u32.to_le_bytes());
    rsrc.extend_from_slice(&(kind_name.len() as u16).to_le_bytes());
    for u in kind_name.encode_utf16() {
        rsrc.extend_from_slice(&u.to_le_bytes());
    }
    while rsrc.len() < 0x80 {
        rsrc.push(0);
    }
    rsrc.extend_from_slice(&(rsrc_rva + 0x90).to_le_bytes());
    rsrc.extend_from_slice(&(blob.len() as u32).to_le_bytes());
    rsrc.extend_from_slice(&0u32.to_le_bytes());
    rsrc.extend_from_slice(&0u32.to_le_bytes());
    while rsrc.len() < 0x90 {
        rsrc.push(0);
    }
    rsrc.extend_from_slice(blob);
    while rsrc.len() % 16 != 0 {
        rsrc.push(0);
    }

    let size_of_image = (rsrc_rva + rsrc.len() as u32).next_multiple_of(0x1000);
    let mut pe = vec![0u8; 0x170];
    pe[0] = b'M';
    pe[1] = b'Z';
    pe[0x3c..0x40].copy_from_slice(&0x40u32.to_le_bytes());
    pe[0x40..0x44].copy_from_slice(b"PE\0\0");
    pe[0x44..0x46].copy_from_slice(&0x8664u16.to_le_bytes());
    pe[0x46..0x48].copy_from_slice(&1u16.to_le_bytes());
    pe[0x54..0x56].copy_from_slice(&240u16.to_le_bytes());
    pe[0x58..0x5a].copy_from_slice(&0x20bu16.to_le_bytes());
    pe[0x78..0x7c].copy_from_slice(&0x1000u32.to_le_bytes());
    pe[0x7c..0x80].copy_from_slice(&16u32.to_le_bytes());
    pe[0x90..0x94].copy_from_slice(&size_of_image.to_le_bytes());
    pe[0xc4..0xc8].copy_from_slice(&16u32.to_le_bytes());
    pe[0xd8..0xdc].copy_from_slice(&rsrc_rva.to_le_bytes());
    pe[0xdc..0xe0].copy_from_slice(&(rsrc.len() as u32).to_le_bytes());
    pe[0x148..0x14f].copy_from_slice(b".rsrc\0\0");
    pe[0x150..0x154].copy_from_slice(&(rsrc.len() as u32).to_le_bytes());
    pe[0x154..0x158].copy_from_slice(&rsrc_rva.to_le_bytes());
    pe[0x158..0x15c].copy_from_slice(&(rsrc.len() as u32).to_le_bytes());
    pe[0x15c..0x160].copy_from_slice(&0x170u32.to_le_bytes());
    pe[0x16c..0x170].copy_from_slice(&0x4000_0040u32.to_le_bytes());
    pe.extend_from_slice(&rsrc);
    pe
}


/// A package list holding `pkgs` and the END package.
fn hii_list(pkgs: &[&[u8]]) -> Vec<u8> {
    let mut b = vec![0x5Au8; 16];
    let total = 20 + 4 + pkgs.iter().map(|p| p.len()).sum::<usize>();
    b.extend_from_slice(&(total as u32).to_le_bytes());
    for p in pkgs {
        b.extend_from_slice(p);
    }
    b.extend_from_slice(&[4, 0, 0, 0xDF]);
    b
}

#[test]
fn unlock_in_a_pe_resource_reports_package_offsets_and_writes_the_body() {
    let pkg = gated_ref(equal_ones());
    let mut pe = synth_hii_pe("HII", &hii_list(&[&pkg]));
    let before = pe.clone();
    let u = unlock_section(EFI_SECTION_PE32, &mut pe, &TARGET).unwrap();
    assert_eq!(u.applied, vec!["pkg+0x2f: 01 -> 02".to_string()]);
    let at = 0x170 + 0x90 + 20 + 0x2f;
    assert_eq!(pe[at], 2);
    assert_eq!(pe.len(), before.len());
    for i in 0..pe.len() {
        if i != at {
            assert_eq!(pe[i], before[i]);
        }
    }
}

#[test]
fn offsets_and_flips_print_package_relative() {
    assert_eq!(pkg_off(0x1a2), "pkg+0x1a2");
    assert_eq!(pkg_off(0), "pkg+0x0");
    assert_eq!(hex(&[0x0a, 0xff, 0x10]), "0a ff 10");
    assert_eq!(hex(&[]), "");
    let f = PlannedFlip { offset: 0x4c, from: vec![0x01, 0x00], to: vec![0xff, 0xff] };
    assert_eq!(flip_text(&f), "pkg+0x4c: 01 00 -> ff ff");
}

use uefi_engine::ffs::{EFI_SECTION_COMPRESSION, EFI_SECTION_GUID_DEFINED};
use uefi_engine::hii::at_path::unlock_at;
use uefi_engine::types::{Action, FfsNode, FfsType, Image, ImageMode, ParsingData};

fn tree_node(node_type: FfsType, subtype: u8, body: Vec<u8>, children: Vec<FfsNode>) -> FfsNode {
    FfsNode {
        guid: None,
        node_type,
        subtype,
        offset: 0,
        header: vec![],
        body,
        tail: vec![],
        children,
        action: Action::NoAction,
        parsing_data: ParsingData::NoData,
        fixed: false,
        compressed: false,
        alignment_bytes: vec![],
    }
}

fn image_with(wrapper: Option<u8>, body: Vec<u8>, mode: ImageMode) -> Image {
    let section = tree_node(FfsType::Section, EFI_SECTION_RAW, body, vec![]);
    let inner = match wrapper {
        Some(sub) => tree_node(FfsType::Section, sub, vec![], vec![section]),
        None => section,
    };
    let file = tree_node(FfsType::File, 0, vec![], vec![inner]);
    let volume = tree_node(FfsType::Volume, 0, vec![], vec![file]);
    Image {
        image_id: "img".to_string(),
        session_id: "s".to_string(),
        root: tree_node(FfsType::Root, 0, vec![], vec![volume]),
        mode,
    }
}

#[test]
fn unlock_at_writes_the_item_and_marks_the_path() {
    let mut image = image_with(None, gated_ref(equal_ones()), ImageMode::Write);
    let u = unlock_at(&mut image, &[0, 0, 0], &TARGET).unwrap();
    assert_eq!(u.applied, vec!["pkg+0x2f: 01 -> 02".to_string()]);
    let section = &image.root.children[0].children[0].children[0];
    assert_eq!(section.body[0x2f], 2);
    assert_eq!(section.action, Action::Rebuild);
    assert_eq!(image.root.children[0].children[0].action, Action::Rebuild);
    assert_eq!(image.root.children[0].action, Action::Rebuild);
}

#[test]
fn unlock_at_refuses_read_only_images_and_locked_wrappers() {
    let mut image = image_with(None, gated_ref(equal_ones()), ImageMode::Read);
    assert!(matches!(
        unlock_at(&mut image, &[0, 0, 0], &TARGET),
        Err(HiiError::NotWritable)
    ));
    let mut image = image_with(Some(EFI_SECTION_COMPRESSION), gated_ref(equal_ones()), ImageMode::Write);
    assert!(matches!(
        unlock_at(&mut image, &[0, 0, 0, 0], &TARGET),
        Err(HiiError::MutationBehindCompression)
    ));
    let mut image = image_with(Some(EFI_SECTION_GUID_DEFINED), gated_ref(equal_ones()), ImageMode::Write);
    assert!(matches!(
        unlock_at(&mut image, &[0, 0, 0, 0], &TARGET),
        Err(HiiError::MutationBehindCompression)
    ));
    let mut image = image_with(None, gated_ref(equal_ones()), ImageMode::Write);
    assert!(matches!(
        unlock_at(&mut image, &[0, 0], &TARGET),
        Err(HiiError::NotASetupItem)
    ));
    assert_eq!(image.root.children[0].children[0].action, Action::NoAction);
}

use uefi_engine::hii::cross_formset::find_cross_gates;

#[test]
fn cross_gates_walk_every_file_and_skip_the_edited_section() {
    let a = Guid::from_str("899407D7-99FE-43D8-9A21-79EC328CAC21").unwrap();
    let b = Guid::from_str("ABBCE13D-E25A-4D9F-A1F9-2F7710786892").unwrap();
    let mut file_a = tree_node(
        FfsType::File,
        0,
        vec![],
        vec![tree_node(FfsType::Section, EFI_SECTION_RAW, gated_ref(equal_ones()), vec![])],
    );
    file_a.guid = Some(a);
    let wrapped = tree_node(
        FfsType::Section,
        EFI_SECTION_GUID_DEFINED,
        vec![],
        vec![tree_node(FfsType::Section, EFI_SECTION_RAW, gated_ref(equal_ones()), vec![])],
    );
    let mut file_b = tree_node(FfsType::File, 0, vec![], vec![wrapped]);
    file_b.guid = Some(b);
    let volume = tree_node(FfsType::Volume, 0, vec![], vec![file_a, file_b]);
    let image = Image {
        image_id: "img".to_string(),
        session_id: "s".to_string(),
        root: tree_node(FfsType::Root, 0, vec![], vec![volume]),
        mode: ImageMode::Read,
    };
    let all = find_cross_gates(&image, &[9], &TARGET);
    assert_eq!(all.len(), 2);
    assert_eq!(all[0].path, vec![0, 0, 0]);
    assert_eq!(all[0].source_ffs, a);
    assert_eq!(all[1].path, vec![0, 1, 0, 0]);
    assert_eq!(all[1].source_ffs, b);
    assert_eq!(all[1].pkg_start, 0);
    assert_eq!(all[1].gates.len(), 1);
    let others = find_cross_gates(&image, &[0, 0, 0], &TARGET);
    assert_eq!(others.len(), 1);
    assert_eq!(others[0].path, vec![0, 1, 0, 0]);
}
