use std::str::FromStr;
use uefi_engine::guid::Guid;
use uefi_engine::hii::opcodes::{IFR_ONE_OF_OP, IFR_REF_OP};
use uefi_engine::hii::ref_variant::{parse_ref, RefTarget};
const CROSS_FORMSET: &str = "EC87D643-EBA4-4BB5-A1E5-3F3E36B20DA9";

/// An 11-byte question header (prompt, help, question id, varstore id and
/// offset, flags) followed by the variant's tail.
fn ref_stmt(total_len: usize, tail: &[u8]) -> Vec<u8> {
    assert_eq!(total_len, 2 + 11 + tail.len());
    let mut v = vec![IFR_REF_OP, total_len as u8];
    v.extend_from_slice(&[0u8; 11]);
    v.extend_from_slice(tail);
    v
}

#[test]
fn parse_ref_plain_and_ref2() {
    let plain = ref_stmt(15, &1u16.to_le_bytes());
    assert_eq!(
        parse_ref(plain[0], &plain),
        Some(RefTarget::Form { form_id: 1 })
    );
    let ref2 = ref_stmt(17, &[1u16.to_le_bytes(), 0x24u16.to_le_bytes()].concat());
    assert_eq!(
        parse_ref(ref2[0], &ref2),
        Some(RefTarget::FormQuestion {
            form_id: 1,
            question_id: 0x24
        })
    );
}

#[test]
fn parse_ref3_reads_formset_guid_at_17() {
    let g = Guid::from_str(CROSS_FORMSET).unwrap();
    let tail = [
        1u16.to_le_bytes().as_slice(),
        0xFFFFu16.to_le_bytes().as_slice(),
        g.to_bytes().as_slice(),
    ]
    .concat();
    let ref3 = ref_stmt(33, &tail);
    assert_eq!(
        parse_ref(ref3[0], &ref3),
        Some(RefTarget::Formset {
            formset_guid: g,
            form_id: 1,
            question_id: 0xFFFF,
        })
    );
}

#[test]
fn parse_ref4_treated_as_formset_device_path_ignored() {
    let g = Guid::from_str(CROSS_FORMSET).unwrap();
    let tail = [
        2u16.to_le_bytes().as_slice(),
        0xFFFFu16.to_le_bytes().as_slice(),
        g.to_bytes().as_slice(),
        0x00AAu16.to_le_bytes().as_slice(),
    ]
    .concat();
    let ref4 = ref_stmt(35, &tail);
    assert_eq!(
        parse_ref(ref4[0], &ref4),
        Some(RefTarget::Formset {
            formset_guid: g,
            form_id: 2,
            question_id: 0xFFFF,
        })
    );
}

#[test]
fn parse_ref5_is_dynamic() {
    let ref5 = ref_stmt(13, &[]);
    assert_eq!(parse_ref(ref5[0], &ref5), Some(RefTarget::Dynamic));
}

#[test]
fn parse_ref_rejects_other_opcodes_and_lengths() {
    let mut weird = ref_stmt(15, &1u16.to_le_bytes());
    weird[0] = IFR_ONE_OF_OP;
    assert_eq!(parse_ref(weird[0], &weird), None);
    for len in [12u8, 14, 16, 18, 32, 34, 36] {
        let mut v = vec![IFR_REF_OP, len];
        v.resize(v.len() + len as usize, 0);
        assert_eq!(parse_ref(v[0], &v), None, "len={len}");
    }
}

#[test]
fn guid_from_str_refuses_malformed_text() {
    assert!(Guid::from_str("not-a-guid").is_err());
    assert!(Guid::from_str("ABBCE13D-E25A-4D9F-A1F9-2F7710786892x").is_err());
    assert!(Guid::from_str("ABBCE13D+E25A-4D9F-A1F9-2F7710786892").is_err());
    let g = Guid::from_str("ABBCE13D-E25A-4D9F-A1F9-2F7710786892").unwrap();
    assert_eq!(&g.to_bytes()[0..4], &[0x3D, 0xE1, 0xBC, 0xAB]);
}
