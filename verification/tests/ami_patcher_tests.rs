use uefi_engine::guid::Guid;
use uefi_engine::hii::ami_patcher::{
    find_ami_module, make_ami_record, patch_ami, precheck_ami_modules, QuestionAmiRecord,
    AMI_RECORD_SIZE,
};
use uefi_engine::hii::HiiError;
use uefi_engine::types::{
    Action, FfsNode, FfsType, GuidedSectionParsingData, Image, ImageMode, ParsingData,
};

#[test]
fn ami_record_offsets() {
    let rec = QuestionAmiRecord {
        question_id: 0x100,
        page_id: Some(5),
        access_level: 0x05,
        failsafe: 1,
        optimal: 0,
    };
    let buf = make_ami_record(&rec);
    assert_eq!(buf.len(), AMI_RECORD_SIZE);
    assert_eq!(u16::from_le_bytes([buf[0], buf[1]]), 0x100);
    assert_eq!(u16::from_le_bytes([buf[24], buf[25]]), 5);
    assert_eq!(buf[32], 0x05);
    assert_eq!(buf[104], 1);
    assert_eq!(buf[106], 0);
}

#[test]
fn ami_record_no_page_id() {
    let rec = QuestionAmiRecord {
        question_id: 0x200,
        page_id: None,
        access_level: 0x05,
        failsafe: 0,
        optimal: 1,
    };
    let buf = make_ami_record(&rec);
    assert_eq!(u16::from_le_bytes([buf[24], buf[25]]), 0);
}

#[test]
fn ami_record_all_zero_except_qid() {
    let rec = QuestionAmiRecord {
        question_id: 1,
        page_id: None,
        access_level: 0,
        failsafe: 0,
        optimal: 0,
    };
    let buf = make_ami_record(&rec);
    assert_eq!(buf[32], 0);
    assert_eq!(buf[50], 0);
    assert_eq!(buf[107], 0);
}

fn mk_node(node_type: FfsType, body: Vec<u8>, children: Vec<FfsNode>) -> FfsNode {
    FfsNode {
        guid: None,
        node_type,
        subtype: 0,
        offset: 0,
        header: vec![],
        body,
        tail: vec![],
        children,
        action: Action::NoAction,
        parsing_data: ParsingData::NoData,
        fixed: false,
        compressed: false,
        alignment_bytes: vec![],
    }
}

fn ui_section(name: &str) -> FfsNode {
    let mut ucs2: Vec<u8> = Vec::new();
    for u in name.encode_utf16() {
        ucs2.extend_from_slice(&u.to_le_bytes());
    }
    ucs2.extend_from_slice(&[0, 0]);
    FfsNode {
        guid: None,
        node_type: FfsType::Section,
        subtype: uefi_engine::ffs::EFI_SECTION_UI,
        offset: 0,
        header: vec![],
        body: ucs2,
        tail: vec![],
        children: vec![],
        action: Action::NoAction,
        parsing_data: ParsingData::NoData,
        fixed: false,
        compressed: false,
        alignment_bytes: vec![],
    }
}

#[test]
fn patch_ami_appends_records_into_pfs_section_and_marks_rebuild() {
    let mut image = ami_image(
        vec![pfs_section(), ui_section("AMITSESetupData")],
        vec![pe32_section(), ui_section("AMITSE")],
    );
    let formset_guid: Guid = "A1B2C3D4-E5F6-7890-ABCD-EF1234567890".parse().unwrap();
    let q = QuestionAmiRecord {
        question_id: 0x10,
        page_id: None,
        access_level: 0x05,
        failsafe: 1,
        optimal: 0,
    };
    let record = make_ami_record(&q);
    let pfs_before = image.root.children[0].children[0].children[0].body.clone();
    let file_body_before = image.root.children[0].children[0].body.clone();
    patch_ami(&mut image, &formset_guid, &[], &[q], None, None).unwrap();
    let pfs = &image.root.children[0].children[0].children[0];
    assert_eq!(pfs.body.len(), pfs_before.len() + AMI_RECORD_SIZE);
    let tail = &pfs.body[pfs.body.len() - AMI_RECORD_SIZE..];
    assert_eq!(u16::from_le_bytes([tail[0], tail[1]]), 0x10);
    assert_eq!(tail, record.as_slice());
    assert_eq!(pfs.action, Action::Rebuild);
    assert_eq!(image.root.children[0].children[0].action, Action::Rebuild);
    assert_eq!(image.root.children[0].action, Action::Rebuild);
    assert_eq!(image.root.children[0].children[0].body, file_body_before);
}

#[test]
fn patch_ami_appends_form_ids_into_pe32_section() {
    let mut image = ami_image(
        vec![pfs_section(), ui_section("AMITSESetupData")],
        vec![pe32_section(), ui_section("AMITSE")],
    );
    let formset_guid: Guid = "A1B2C3D4-E5F6-7890-ABCD-EF1234567890".parse().unwrap();
    patch_ami(
        &mut image,
        &formset_guid,
        &[0x0001, 0x0002],
        &[],
        None,
        None,
    )
    .unwrap();
    let pe32 = &image.root.children[0].children[1].children[0];
    assert_eq!(
        pe32.body,
        vec![0x4Du8, 0x5A, 0x00, 0x00, 0x01, 0x00, 0x02, 0x00]
    );
    assert_eq!(pe32.action, Action::Rebuild);
}

#[test]
fn patch_ami_splices_form_ids_at_formset_marker() {
    let mut image = ami_image(
        vec![pfs_section(), ui_section("AMITSESetupData")],
        vec![pe32_section(), ui_section("AMITSE")],
    );
    image.root.children[0].children[1].children[0].body = vec![0x4Du8, 0x5A, 0x34, 0x56, 0x00];
    let formset_guid: Guid = "A1B2C3D4-E5F6-7890-ABCD-EF1234567890".parse().unwrap();
    patch_ami(&mut image, &formset_guid, &[0x0003], &[], None, None).unwrap();
    let pe32 = &image.root.children[0].children[1].children[0];
    assert_eq!(pe32.body, vec![0x4Du8, 0x5A, 0x03, 0x00, 0x34, 0x56, 0x00]);
}

const SETUPDATA_GUID_STR: &str = "12345678-90AB-CDEF-1234-567890ABCDEF";
const AMITSE_GUID_STR: &str = "87654321-FEDC-BA09-8765-432109FEDCBA";

fn pfs_section() -> FfsNode {
    let mut body = vec![0u8; 16];
    body.extend_from_slice(b"$SPF");
    body.extend_from_slice(&[0u8; 8]);
    let mut n = mk_node(FfsType::Section, body, vec![]);
    n.subtype = uefi_engine::ffs::EFI_SECTION_FREEFORM_SUBTYPE_GUID;
    n
}

fn pe32_section() -> FfsNode {
    let mut n = mk_node(FfsType::Section, vec![0x4Du8, 0x5A, 0, 0], vec![]);
    n.subtype = uefi_engine::ffs::EFI_SECTION_PE32;
    n
}

fn guided_wrapper(guid: Guid, children: Vec<FfsNode>) -> FfsNode {
    let mut n = mk_node(FfsType::Section, vec![], children);
    n.subtype = uefi_engine::ffs::EFI_SECTION_GUID_DEFINED;
    n.parsing_data = ParsingData::GuidedSection(GuidedSectionParsingData {
        guid,
        dictionary_size: 0x0080_0000,
    });
    n
}

fn ami_image(setupdata_children: Vec<FfsNode>, amitse_children: Vec<FfsNode>) -> Image {
    let mut setupdata = mk_node(FfsType::File, vec![], setupdata_children);
    setupdata.guid = Some(Guid::try_parse(SETUPDATA_GUID_STR).unwrap());
    let mut amitse = mk_node(FfsType::File, vec![], amitse_children);
    amitse.guid = Some(Guid::try_parse(AMITSE_GUID_STR).unwrap());
    let volume = mk_node(FfsType::Volume, vec![], vec![setupdata, amitse]);
    let root = mk_node(FfsType::Image, vec![], vec![volume]);
    Image {
        image_id: "img".into(),
        session_id: "s".into(),
        root,
        mode: ImageMode::Write,
    }
}

#[test]
fn precheck_rejects_setupdata_without_pfs_payload() {
    let img = ami_image(vec![ui_section("AMITSESetupData")], vec![pe32_section()]);
    let sd = Guid::try_parse(SETUPDATA_GUID_STR).unwrap();
    let am = Guid::try_parse(AMITSE_GUID_STR).unwrap();
    assert!(matches!(
        precheck_ami_modules(&img, Some(&sd), Some(&am)),
        Err(HiiError::AmiFilesNotFound)
    ));
}

#[test]
fn precheck_rejects_amitse_without_pe32_payload() {
    let img = ami_image(vec![pfs_section()], vec![ui_section("AMITSE")]);
    let sd = Guid::try_parse(SETUPDATA_GUID_STR).unwrap();
    let am = Guid::try_parse(AMITSE_GUID_STR).unwrap();
    assert!(matches!(
        precheck_ami_modules(&img, Some(&sd), Some(&am)),
        Err(HiiError::AmiFilesNotFound)
    ));
}

#[test]
fn precheck_rejects_pfs_behind_tiano_wrapper() {
    let img = ami_image(
        vec![guided_wrapper(
            uefi_engine::ffs::tiano_guid(),
            vec![pfs_section()],
        )],
        vec![pe32_section()],
    );
    let sd = Guid::try_parse(SETUPDATA_GUID_STR).unwrap();
    let am = Guid::try_parse(AMITSE_GUID_STR).unwrap();
    assert!(matches!(
        precheck_ami_modules(&img, Some(&sd), Some(&am)),
        Err(HiiError::MutationBehindCompression)
    ));
}

#[test]
fn precheck_rejects_pe32_behind_tiano_wrapper() {
    let img = ami_image(
        vec![pfs_section()],
        vec![guided_wrapper(
            uefi_engine::ffs::tiano_guid(),
            vec![pe32_section()],
        )],
    );
    let sd = Guid::try_parse(SETUPDATA_GUID_STR).unwrap();
    let am = Guid::try_parse(AMITSE_GUID_STR).unwrap();
    assert!(matches!(
        precheck_ami_modules(&img, Some(&sd), Some(&am)),
        Err(HiiError::MutationBehindCompression)
    ));
}

#[test]
fn precheck_accepts_payloads_behind_lzma_wrapper() {
    let img = ami_image(
        vec![guided_wrapper(uefi_engine::ffs::lzma_guid(), vec![pfs_section()])],
        vec![guided_wrapper(
            uefi_engine::ffs::lzma_guid(),
            vec![pe32_section()],
        )],
    );
    let sd = Guid::try_parse(SETUPDATA_GUID_STR).unwrap();
    let am = Guid::try_parse(AMITSE_GUID_STR).unwrap();
    assert!(precheck_ami_modules(&img, Some(&sd), Some(&am)).is_ok());
}

#[test]
fn find_ami_module_matches_hnx_ui_names() {
    let setupdata = mk_node(FfsType::File, vec![], vec![ui_section("AMITSESetupData")]);
    let amitse = mk_node(FfsType::File, vec![], vec![ui_section("AMITSE")]);
    let volume = mk_node(FfsType::Volume, vec![], vec![setupdata, amitse]);
    let root = mk_node(FfsType::Image, vec![], vec![volume]);
    let img = Image {
        image_id: "img".into(),
        session_id: "s".into(),
        root,
        mode: ImageMode::Write,
    };
    let (vi, fi) = find_ami_module(&img, None, "setupdata").unwrap();
    assert_eq!((vi, fi), (0, 0));
    let (vi, fi) = find_ami_module(&img, None, "AMITSE").unwrap();
    assert_eq!((vi, fi), (0, 1));
}

#[test]
fn patch_ami_returns_error_when_files_not_found() {
    let other = mk_node(FfsType::File, vec![0xAB], vec![ui_section("Other")]);
    let volume = mk_node(FfsType::Volume, vec![], vec![other]);
    let root = mk_node(FfsType::Image, vec![], vec![volume]);
    let mut image = Image {
        image_id: "img".into(),
        session_id: "s".into(),
        root,
        mode: ImageMode::Write,
    };
    let formset_guid: Guid = "A1B2C3D4-E5F6-7890-ABCD-EF1234567890".parse().unwrap();
    assert!(matches!(
        patch_ami(&mut image, &formset_guid, &[], &[], None, None),
        Err(HiiError::AmiFilesNotFound)
    ));
}
