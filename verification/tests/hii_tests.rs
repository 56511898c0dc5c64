use uefi_engine::hii::{spf_page_registration_slot, HiiError};

#[test]
fn pe_growth_unsupported_display() {
    assert_eq!(
        HiiError::PeGrowthUnsupported.to_string(),
        "cannot grow PE resource section"
    );
}

#[test]
fn error_messages_carry_their_payloads() {
    assert_eq!(
        HiiError::InvalidSchema("title is empty".to_string()).to_string(),
        "invalid schema: title is empty"
    );
    assert_eq!(
        HiiError::IdOccupied(258).to_string(),
        "string id 258 is already occupied"
    );
    assert_eq!(HiiError::IdOccupied(0).to_string(), "string id 0 is already occupied");
    assert_eq!(
        HiiError::GateExpressionUnsupported("x".to_string()).to_string(),
        "gating expression not reducible to a hardware-validated flip: x"
    );
    assert_eq!(HiiError::NotFound.to_string(), "not found");
    assert_eq!(
        HiiError::NotWritable.to_string(),
        "image is not writable (open in Write mode first)"
    );
}

/// A `$SPF` body (container at 0x10) with `count` page-table slots, slot 0
/// pointing at a page of form 5.
fn spf_with_pages(count: u32) -> Vec<u8> {
    let mut body = vec![0u8; 0x200];
    body[0x10..0x14].copy_from_slice(b"$SPF");
    body[0x70..0x74].copy_from_slice(&count.to_le_bytes());
    body[0x74..0x78].copy_from_slice(&0x100u32.to_le_bytes());
    body[0x10 + 0x100 + 0xA..0x10 + 0x100 + 0xC].copy_from_slice(&5u16.to_le_bytes());
    body
}

#[test]
fn page_registration_takes_the_slot_after_the_registered_ones() {
    let body = spf_with_pages(2);
    assert!(matches!(spf_page_registration_slot(&body, 7), Ok(2)));
}

#[test]
fn page_registration_refuses_an_already_registered_form() {
    let body = spf_with_pages(2);
    let e = spf_page_registration_slot(&body, 5).unwrap_err();
    assert!(matches!(e, HiiError::InvalidSchema(_)));
    assert_eq!(
        e.to_string(),
        "invalid schema: page 5 is already registered in the $SPF page table"
    );
}

#[test]
fn page_registration_refuses_an_occupied_gap() {
    let mut body = spf_with_pages(2);
    body[0x7C..0x80].copy_from_slice(&0x140u32.to_le_bytes());
    let e = spf_page_registration_slot(&body, 7).unwrap_err();
    assert_eq!(e.to_string(), "invalid schema: page table gap occupied");
}

#[test]
fn page_registration_without_spf_or_with_a_short_table_is_not_found() {
    let body = vec![0u8; 0x200];
    assert!(matches!(
        spf_page_registration_slot(&body, 7),
        Err(HiiError::NotFound)
    ));
    let short = spf_with_pages(0x100);
    assert!(matches!(
        spf_page_registration_slot(&short, 7),
        Err(HiiError::NotFound)
    ));
}

use uefi_engine::hii::build_question_ops;
use uefi_engine::hii::ifr_builder::{IfrBuilder as Builder, DEFAULT_ID_STANDARD, TYPE_NUM_SIZE_8};
use uefi_engine::hii::schema::{DefaultClass, QuestionAddOption, QuestionAddSchema};
use uefi_engine::hii::string_ids::StringIds;

fn question() -> QuestionAddSchema {
    QuestionAddSchema {
        form_id: 0x2710,
        prompt: "P".to_string(),
        help: "H".to_string(),
        question_id: 0x30,
        var_store_id: 1,
        var_offset: 4,
        size: 1,
        options: vec![
            QuestionAddOption {
                text: "Disabled".to_string(),
                value: 0,
                default: Some(DefaultClass::Failsafe),
            },
            QuestionAddOption {
                text: "Enabled".to_string(),
                value: 1,
                default: Some(DefaultClass::Optimized),
            },
        ],
        defaults: None,
    }
}

#[test]
fn question_ops_are_one_of_options_default_and_end() {
    let mut ids = StringIds::new();
    ids.insert("Disabled".to_string(), 0x21);
    ids.insert("Enabled".to_string(), 0x22);
    let ops = build_question_ops(&question(), 0x10, 0x11, Some(&ids), Some(1)).unwrap();
    let mut b = Builder::new();
    b.emit_one_of(0x10, 0x11, 0x30, 1, 4, 0, 1);
    b.emit_one_of_option(0x21, 0x20, TYPE_NUM_SIZE_8, 0, 1);
    b.emit_one_of_option(0x22, 0x10, TYPE_NUM_SIZE_8, 1, 1);
    b.emit_default(DEFAULT_ID_STANDARD, TYPE_NUM_SIZE_8, 1, 1);
    b.emit_end();
    assert_eq!(ops, b.build());
    assert_eq!(ops[0], 0x05);
    assert_eq!(*ops.last().unwrap(), 0x02);
}

#[test]
fn question_ops_without_a_table_use_id_zero_and_have_the_final_length() {
    let sized = build_question_ops(&question(), 0, 0, None, None).unwrap();
    let mut ids = StringIds::new();
    ids.insert("Disabled".to_string(), 7);
    ids.insert("Enabled".to_string(), 8);
    let real = build_question_ops(&question(), 3, 4, Some(&ids), None).unwrap();
    assert_eq!(sized.len(), real.len());
    assert_eq!(&sized[19..21], &[0, 0]);
    assert_eq!(&real[19..21], &[7, 0]);
}

#[test]
fn question_ops_refuse_an_option_text_without_string_id() {
    let mut ids = StringIds::new();
    ids.insert("Enabled".to_string(), 0x22);
    assert!(matches!(
        build_question_ops(&question(), 1, 2, Some(&ids), None),
        Err(HiiError::InvalidIfr)
    ));
}

use uefi_engine::hii::schema::QuestionAddDefaults;
use uefi_engine::hii::validate_question_add;

fn refusal(q: &QuestionAddSchema) -> String {
    validate_question_add(q).unwrap_err().to_string()
}

#[test]
fn question_add_gives_marked_defaults() {
    assert_eq!(validate_question_add(&question()).unwrap(), (Some(1), Some(0)));
    let mut q = question();
    q.options[1].default = None;
    q.options[0].default = None;
    assert_eq!(validate_question_add(&q).unwrap(), (None, None));
    q.defaults = Some(QuestionAddDefaults { optimized: 1 });
    assert_eq!(validate_question_add(&q).unwrap(), (Some(1), None));
    let mut agree = question();
    agree.defaults = Some(QuestionAddDefaults { optimized: 1 });
    assert_eq!(validate_question_add(&agree).unwrap(), (Some(1), Some(0)));
}

#[test]
fn question_add_refusals_name_the_fault() {
    let mut q = question();
    q.size = 2;
    assert_eq!(
        refusal(&q),
        "invalid schema: size 2 violates one_of u8 semantics (must be 1)"
    );
    let mut q = question();
    q.options.clear();
    assert_eq!(refusal(&q), "invalid schema: options must not be empty");
    let mut q = question();
    q.options[1].value = 0x1ff;
    q.options[0].value = 0x100;
    assert_eq!(
        refusal(&q),
        "invalid schema: option value 0x100 does not fit one_of u8 semantics"
    );
    let mut q = question();
    q.options[0].default = Some(DefaultClass::Optimized);
    assert_eq!(
        refusal(&q),
        "invalid schema: only one option may carry default \"optimized\""
    );
    let mut q = question();
    q.options[1].default = Some(DefaultClass::Failsafe);
    assert_eq!(
        refusal(&q),
        "invalid schema: only one option may carry default \"failsafe\""
    );
    let mut q = question();
    q.defaults = Some(QuestionAddDefaults { optimized: 0 });
    assert_eq!(
        refusal(&q),
        "invalid schema: defaults.optimized 0 disagrees with the option marked optimized (1)"
    );
    let mut q = question();
    q.options[1].default = None;
    q.defaults = Some(QuestionAddDefaults { optimized: 42 });
    assert_eq!(
        refusal(&q),
        "invalid schema: optimized default 42 is not among option values"
    );
}

use uefi_engine::hii::set_store_value;

#[test]
fn store_value_lands_at_record_plus_offset() {
    let mut body = vec![0xAAu8; 32];
    let r = set_store_value(&mut body, 8, 4, 2, 0x1234_5678).unwrap();
    assert_eq!(r, Some((vec![0xAA, 0xAA], vec![0x78, 0x56])));
    assert_eq!(&body[12..14], &[0x78, 0x56]);
    assert_eq!(body[11], 0xAA);
    assert_eq!(body[14], 0xAA);
    let again = set_store_value(&mut body, 8, 4, 2, 0x5678).unwrap();
    assert_eq!(again, None);
    let before = body.clone();
    let e = set_store_value(&mut body, 28, 3, 2, 1).unwrap_err();
    assert_eq!(
        e.to_string(),
        "value operation not supported: record data out of bounds"
    );
    assert_eq!(body, before);
}
