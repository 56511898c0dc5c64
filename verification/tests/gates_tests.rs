use std::str::FromStr;
use uefi_engine::guid::Guid;
use uefi_engine::hii::gates::{
    apply_flips, decode_expr, find_gates, plan_flip, plan_gates, plan_gates_skip_unlocked,
    GateExpr, GateKind, GateTarget, Wraps,
};
use uefi_engine::hii::opcodes::{
    IFR_END_OP, IFR_EQUAL_OP, IFR_EQ_ID_VAL_OP, IFR_FORM_OP, IFR_FORM_SET_OP, IFR_GRAY_OUT_IF_OP,
    IFR_NUMERIC_OP, IFR_NUMERIC_SIZE_1, IFR_NUMERIC_SIZE_2, IFR_ONE_OF_OP, IFR_REF_OP,
    IFR_SUPPRESS_IF_OP, IFR_TRUE_OP, IFR_UINT64_OP, PACKAGE_FORMS,
};


const FORMSET_GUID: &str = "7B59104A-C00D-4158-87FF-F04D6396A915";

fn opcode(op_code: u8, scope: bool, payload: &[u8]) -> Vec<u8> {
    let mut v = Vec::with_capacity(payload.len() + 2);
    v.push(op_code);
    v.push(((payload.len() + 2) as u8) | if scope { 0x80 } else { 0 });
    v.extend_from_slice(payload);
    v
}

fn form_set(title: u16) -> Vec<u8> {
    let g = Guid::from_str(FORMSET_GUID).unwrap();
    let mut p = Vec::new();
    p.extend_from_slice(&g.to_bytes());
    p.extend_from_slice(&title.to_le_bytes());
    p.extend_from_slice(&0u16.to_le_bytes());
    p.push(0u8);
    opcode(IFR_FORM_SET_OP, true, &p)
}

fn form(id: u16, title: u16) -> Vec<u8> {
    opcode(
        IFR_FORM_OP,
        true,
        &[id.to_le_bytes(), title.to_le_bytes()].concat(),
    )
}

fn end() -> Vec<u8> {
    vec![IFR_END_OP, 0x02]
}

fn package(ifr: &[u8]) -> Vec<u8> {
    let total = 4 + ifr.len();
    let mut b = vec![
        (total & 0xFF) as u8,
        ((total >> 8) & 0xFF) as u8,
        ((total >> 16) & 0xFF) as u8,
        PACKAGE_FORMS,
    ];
    b.extend_from_slice(ifr);
    b
}

fn ref_op(form_id: u16, question_id: u16) -> Vec<u8> {
    let mut p = vec![0u8; 11];
    p[4..6].copy_from_slice(&question_id.to_le_bytes());
    let mut v = vec![IFR_REF_OP, 0x0F];
    v.extend_from_slice(&p);
    v.extend_from_slice(&form_id.to_le_bytes());
    v
}

fn one_of_op(question_id: u16) -> Vec<u8> {
    let mut p = vec![0u8; 10];
    p[4..6].copy_from_slice(&question_id.to_le_bytes());
    opcode(IFR_ONE_OF_OP, true, &p)
}

fn vendor_ifr() -> Vec<u8> {
    let mut ifr = form_set(7);
    ifr.extend(form(10002, 20));
    ifr.extend(opcode(IFR_SUPPRESS_IF_OP, true, &[]));
    ifr.extend(uint64(1));
    ifr.extend(uint64(1));
    ifr.extend(equal());
    ifr.extend(ref_op(10029, 0x003A));
    ifr.extend(end());
    ifr.extend(end());
    ifr.extend(form(10029, 21));
    ifr.extend(opcode(IFR_GRAY_OUT_IF_OP, true, &[]));
    ifr.extend(eq_id_val(0x009A, 1));
    ifr.extend(one_of_op(0x003B));
    ifr.extend(end());
    ifr.extend(end());
    ifr.extend(end());
    ifr.extend(end());
    ifr
}

fn numeric_op(question_id: u16, flags: u8) -> Vec<u8> {
    let mut p = vec![0u8; 11];
    p[4..6].copy_from_slice(&question_id.to_le_bytes());
    p[10] = flags;
    opcode(IFR_NUMERIC_OP, true, &p)
}

fn master_switch_ifr(width_flags: u8) -> Vec<u8> {
    let mut ifr = form_set(7);
    ifr.extend(form(10029, 21));
    ifr.extend(numeric_op(0x009A, width_flags));
    ifr.extend(end());
    ifr.extend(opcode(IFR_GRAY_OUT_IF_OP, true, &[]));
    ifr.extend(eq_id_val(0x009A, 1));
    ifr.extend(one_of_op(0x003B));
    ifr.extend(end());
    ifr.extend(end());
    ifr.extend(end());
    ifr.extend(end());
    ifr
}

const FORM_GATE_TARGET: GateTarget = GateTarget {
    form_id: 10029,
    question_id: None,
};
const QUESTION_GATE_TARGET: GateTarget = GateTarget {
    form_id: 10029,
    question_id: Some(0x003B),
};

#[test]
fn find_gates_reports_ref_suppress_for_target_form() {
    let pkg = package(&vendor_ifr());
    let gates = find_gates(&pkg, &FORM_GATE_TARGET);
    assert_eq!(gates.len(), 1);
    assert_eq!(gates[0].kind, GateKind::Suppress);
    assert_eq!(
        gates[0].wraps,
        Wraps::Ref {
            form_id: 10029,
            host_form_id: 10002
        }
    );
    assert_eq!(gates[0].expr, GateExpr::EqConst { a: 1, b: 1 });
    assert_eq!(pkg[gates[0].scope_offset], IFR_SUPPRESS_IF_OP);
    assert_eq!(pkg[gates[0].expr_offset], IFR_UINT64_OP);
    assert!(gates[0].expr_offset < gates[0].expr_end);
    assert_eq!(
        &pkg[gates[0].expr_end..gates[0].expr_end + 2],
        &ref_op(10029, 0x003A)[..2]
    );
}

#[test]
fn find_gates_reports_question_grayout() {
    let pkg = package(&vendor_ifr());
    let gates = find_gates(&pkg, &QUESTION_GATE_TARGET);
    assert_eq!(gates.len(), 1);
    assert_eq!(gates[0].kind, GateKind::Grayout);
    assert_eq!(
        gates[0].wraps,
        Wraps::Question {
            form_id: 10029,
            question_id: 0x003B
        }
    );
    assert_eq!(
        gates[0].expr,
        GateExpr::EqIdVal {
            question_id: 0x009A,
            value: 1
        }
    );
    assert_eq!(pkg[gates[0].scope_offset], IFR_GRAY_OUT_IF_OP);
}

#[test]
fn find_gates_walks_despite_scope_bit_quirk_in_expr() {
    let mut ifr = vendor_ifr();
    let quirk_pos = ifr
        .windows(2)
        .position(|w| w == [IFR_SUPPRESS_IF_OP, 0x82])
        .unwrap()
        + 2;
    assert_eq!(ifr[quirk_pos + 1], 0x0A);
    ifr[quirk_pos + 1] = 0x8A;
    let pkg = package(&ifr);
    let gates = find_gates(&pkg, &FORM_GATE_TARGET);
    assert_eq!(
        gates.len(),
        1,
        "scope bit on expression operand must not derail the walk"
    );
    assert_eq!(gates[0].expr, GateExpr::EqConst { a: 1, b: 1 });
}

fn real_quirk_ifr() -> Vec<u8> {
    let mut ifr = form_set(7);
    ifr.extend(form(10002, 20));
    ifr.extend(opcode(IFR_SUPPRESS_IF_OP, true, &[]));
    ifr.extend(uint64_quirk(1));
    ifr.extend(uint64(1));
    ifr.extend(equal());
    ifr.extend(end());
    ifr.extend(ref_op(10029, 0x003A));
    ifr.extend(end());
    ifr.extend(form(10029, 21));
    ifr.extend(opcode(IFR_GRAY_OUT_IF_OP, true, &[]));
    ifr.extend(eq_id_val(0x009A, 1));
    ifr.extend(one_of_op(0x003B));
    ifr.extend(end());
    ifr.extend(end());
    ifr.extend(end());
    ifr.extend(end());
    ifr
}

#[test]
fn find_gates_scoped_expr_operands_with_end_terminators_keep_gate_frames() {
    let pkg = package(&real_quirk_ifr());
    let gates = find_gates(&pkg, &FORM_GATE_TARGET);
    assert_eq!(
        gates.len(),
        1,
        "END terminator of a scoped operand must pop the operand frame, not its enclosing gate frame"
    );
    assert_eq!(gates[0].kind, GateKind::Suppress);
    assert_eq!(
        gates[0].wraps,
        Wraps::Ref {
            form_id: 10029,
            host_form_id: 10002
        }
    );
    assert_eq!(gates[0].expr, GateExpr::EqConst { a: 1, b: 1 });
    assert!(gates[0].expr_offset < gates[0].expr_end);

    let qgates = find_gates(&pkg, &QUESTION_GATE_TARGET);
    assert_eq!(
        qgates.len(),
        1,
        "stack must stay balanced past the quirk for later forms"
    );
    assert_eq!(qgates[0].kind, GateKind::Grayout);
    assert_eq!(
        qgates[0].expr,
        GateExpr::EqIdVal {
            question_id: 0x009A,
            value: 1
        }
    );
}

#[test]
fn find_gates_reports_direct_form_suppress() {
    let mut ifr = form_set(7);
    ifr.extend(opcode(IFR_SUPPRESS_IF_OP, true, &[]));
    ifr.extend(uint64(1));
    ifr.extend(uint64(1));
    ifr.extend(equal());
    ifr.extend(form(901, 30));
    ifr.extend(end());
    ifr.extend(end());
    ifr.extend(end());
    ifr.extend(end());
    let gates = find_gates(
        &package(&ifr),
        &GateTarget {
            form_id: 901,
            question_id: None,
        },
    );
    assert_eq!(gates.len(), 1);
    assert_eq!(gates[0].wraps, Wraps::Form { form_id: 901 });
}

#[test]
fn find_gates_reports_every_enclosing_gate_innermost_first() {
    let mut ifr = form_set(7);
    ifr.extend(form(10029, 21));
    ifr.extend(opcode(IFR_SUPPRESS_IF_OP, true, &[]));
    ifr.extend(uint64(1));
    ifr.extend(uint64(1));
    ifr.extend(equal());
    ifr.extend(opcode(IFR_GRAY_OUT_IF_OP, true, &[]));
    ifr.extend(eq_id_val(0x009A, 1));
    ifr.extend(one_of_op(0x003B));
    ifr.extend(end());
    ifr.extend(end());
    ifr.extend(end());
    ifr.extend(end());
    ifr.extend(end());
    let gates = find_gates(&package(&ifr), &QUESTION_GATE_TARGET);
    assert_eq!(gates.len(), 2);
    assert_eq!(gates[0].kind, GateKind::Grayout);
    assert_eq!(
        gates[0].expr,
        GateExpr::EqIdVal {
            question_id: 0x009A,
            value: 1
        }
    );
    assert_eq!(gates[1].kind, GateKind::Suppress);
    assert_eq!(
        gates[1].expr,
        GateExpr::Other,
        "outer suppress region contains the nested grayout opcode"
    );
}

#[test]
fn find_gates_ignores_question_in_other_form() {
    let ifr = vendor_ifr();
    let pkg = package(&ifr);
    let wrong_form = find_gates(
        &pkg,
        &GateTarget {
            form_id: 10028,
            question_id: Some(0x003B),
        },
    );
    assert!(wrong_form.is_empty());
}

#[test]
fn find_gates_unknown_target_is_empty() {
    let pkg = package(&vendor_ifr());
    assert!(
        find_gates(
            &pkg,
            &GateTarget {
                form_id: 4242,
                question_id: None,
            }
        )
        .is_empty()
    );
    assert!(
        find_gates(
            &pkg,
            &GateTarget {
                form_id: 4242,
                question_id: Some(9),
            }
        )
        .is_empty()
    );
}

#[test]
fn find_gates_stops_gracefully_on_truncated_package() {
    let mut pkg = package(&vendor_ifr());
    pkg.truncate(pkg.len() - 3);
    let gates = find_gates(&pkg, &FORM_GATE_TARGET);
    assert!(gates.len() <= 1);
}

#[test]
fn plan_eq_const_flip_targets_second_operand_lsb() {
    let pkg = package(&vendor_ifr());
    let gates = find_gates(&pkg, &FORM_GATE_TARGET);
    let flips = plan_gates(&pkg, &gates).unwrap();
    assert_eq!(flips.len(), 1);
    assert_eq!(flips[0].offset, gates[0].expr_offset + 12);
    assert_eq!(flips[0].from, vec![1]);
    assert_eq!(flips[0].to, vec![2]);
}

#[test]
fn plan_eq_id_val_flip_rewrites_value_to_unreachable() {
    let pkg = package(&vendor_ifr());
    let gates = find_gates(&pkg, &QUESTION_GATE_TARGET);
    let flips = plan_gates(&pkg, &gates).unwrap();
    assert_eq!(flips.len(), 1);
    assert_eq!(flips[0].offset, gates[0].expr_offset + 4);
    assert_eq!(flips[0].from, vec![1, 0]);
    assert_eq!(flips[0].to, vec![0xFF, 0xFF]);
}

#[test]
fn plan_eq_const_distinct_operands_have_no_flip() {
    let mut ifr = form_set(7);
    ifr.extend(opcode(IFR_SUPPRESS_IF_OP, true, &[]));
    ifr.extend(uint64(1));
    ifr.extend(uint64(2));
    ifr.extend(equal());
    ifr.extend(form(901, 30));
    ifr.extend(end());
    ifr.extend(end());
    ifr.extend(end());
    ifr.extend(end());
    let pkg = package(&ifr);
    let gates = find_gates(
        &pkg,
        &GateTarget {
            form_id: 901,
            question_id: None,
        },
    );
    assert!(plan_gates(&pkg, &gates).is_err());
}

#[test]
fn plan_refuses_eq_id_val_when_master_storage_is_two_bytes() {
    let pkg = package(&master_switch_ifr(IFR_NUMERIC_SIZE_2));
    let gates = find_gates(&pkg, &QUESTION_GATE_TARGET);
    let err = plan_gates(&pkg, &gates).unwrap_err();
    assert!(
        err.contains("pkg+"),
        "diagnostics must carry a gate's offset: {err}"
    );
}

#[test]
fn plan_allows_eq_id_val_when_master_is_one_byte_numeric() {
    let pkg = package(&master_switch_ifr(IFR_NUMERIC_SIZE_1));
    let gates = find_gates(&pkg, &QUESTION_GATE_TARGET);
    assert!(plan_gates(&pkg, &gates).is_ok());
}

#[test]
fn plan_allows_eq_id_val_when_master_absent_from_package() {
    let pkg = package(&vendor_ifr());
    let gates = find_gates(&pkg, &QUESTION_GATE_TARGET);
    assert!(
        plan_gates(&pkg, &gates).is_ok(),
        "vendor fixture has no 0x009A statement at all: width unknown, flip allowed"
    );
}

#[test]
fn apply_flips_write_in_place_preserving_length() {
    let pkg = package(&vendor_ifr());
    let before = pkg.clone();
    let mut body = pkg.clone();
    for target in [FORM_GATE_TARGET, QUESTION_GATE_TARGET] {
        let flips = plan_gates(&body, &find_gates(&body, &target)).unwrap();
        apply_flips(&mut body, &flips).unwrap();
    }
    assert_eq!(body.len(), before.len());
    let diff: Vec<(usize, u8, u8)> = before
        .iter()
        .zip(body.iter())
        .enumerate()
        .filter(|(_, (a, b))| a != b)
        .map(|(i, (a, b))| (i, *a, *b))
        .collect();
    assert_eq!(diff.len(), 3);
    assert!(diff.iter().any(|(_, a, b)| *a == 1 && *b == 2));
    assert!(diff.iter().filter(|(_, _, b)| *b == 0xFF).count() == 2);
}

#[test]
fn apply_flips_rejects_stale_from_bytes() {
    let pkg = package(&vendor_ifr());
    let gates = find_gates(&pkg, &FORM_GATE_TARGET);
    let mut flips = plan_gates(&pkg, &gates).unwrap();
    let mut body = pkg.clone();
    let stale = flips[0].offset;
    body[stale] = 0x77;
    assert!(apply_flips(&mut body, &flips).is_err());
    assert_eq!(body[stale], 0x77);
    flips[0].from = vec![0x77];
    flips[0].to = vec![0x78];
    apply_flips(&mut body, &flips).unwrap();
    assert_eq!(body[stale], 0x78);
}

#[test]
fn plan_after_flip_refuses_second_unlock() {
    let pkg = package(&vendor_ifr());
    let mut body = pkg.clone();
    let flips = plan_gates(&body, &find_gates(&body, &FORM_GATE_TARGET)).unwrap();
    apply_flips(&mut body, &flips).unwrap();
    let gates = find_gates(&body, &FORM_GATE_TARGET);
    assert_eq!(gates[0].expr, GateExpr::EqConst { a: 1, b: 2 });
    assert!(
        plan_gates(&body, &gates).is_err(),
        "already-false expression must not flip again"
    );
}

fn grayout_ffff_ifr() -> Vec<u8> {
    let mut ifr = form_set(7);
    ifr.extend(form(10029, 21));
    ifr.extend(opcode(IFR_GRAY_OUT_IF_OP, true, &[]));
    ifr.extend(eq_id_val(0x009A, 0xFFFF));
    ifr.extend(one_of_op(0x003B));
    ifr.extend(end());
    ifr.extend(end());
    ifr.extend(end());
    ifr.extend(end());
    ifr
}

#[test]
fn plan_eq_id_val_with_ffff_value_is_not_a_flip() {
    let pkg = package(&grayout_ffff_ifr());
    let gates = find_gates(&pkg, &QUESTION_GATE_TARGET);
    assert_eq!(
        gates[0].expr,
        GateExpr::EqIdVal {
            question_id: 0x009A,
            value: 0xFFFF
        }
    );
    assert!(plan_flip(&pkg, &gates[0]).is_none());
    assert!(plan_gates(&pkg, &gates).is_err());
}

fn uint64(v: u64) -> Vec<u8> {
    let mut b = vec![IFR_UINT64_OP, 0x0A];
    b.extend_from_slice(&v.to_le_bytes());
    b
}

fn uint64_quirk(v: u64) -> Vec<u8> {
    let mut b = uint64(v);
    b[1] = 0x8A;
    b
}

fn equal() -> Vec<u8> {
    vec![IFR_EQUAL_OP, 0x02]
}

fn eq_id_val(question_id: u16, value: u16) -> Vec<u8> {
    let mut b = vec![IFR_EQ_ID_VAL_OP, 0x06];
    b.extend_from_slice(&question_id.to_le_bytes());
    b.extend_from_slice(&value.to_le_bytes());
    b
}

fn true_op() -> Vec<u8> {
    vec![IFR_TRUE_OP, 0x02]
}

fn concat(parts: &[Vec<u8>]) -> Vec<u8> {
    parts.concat()
}

#[test]
fn decode_eq_const_pair_with_equal() {
    let region = concat(&[uint64(1), uint64(1), equal()]);
    assert_eq!(decode_expr(&region), GateExpr::EqConst { a: 1, b: 1 });
}

#[test]
fn decode_eq_const_ignores_scope_bit_quirk() {
    let region = concat(&[uint64_quirk(1), uint64(1), equal()]);
    assert_eq!(
        decode_expr(&region),
        GateExpr::EqConst { a: 1, b: 1 },
        "vendor firmware sets the scope bit on expression operands ([45 8a])"
    );
}

#[test]
fn decode_stops_at_end_terminators_of_scoped_operands() {
    let region = concat(&[uint64_quirk(1), end(), uint64_quirk(1), end(), equal()]);
    assert_eq!(
        decode_expr(&region),
        GateExpr::EqConst { a: 1, b: 1 },
        "scoped operands ([45 8a]) carry their END terminators inside the expression region"
    );
}

#[test]
fn decode_eq_id_val() {
    let region = eq_id_val(0x009A, 1);
    assert_eq!(
        decode_expr(&region),
        GateExpr::EqIdVal {
            question_id: 0x009A,
            value: 1
        }
    );
}

#[test]
fn decode_true() {
    assert_eq!(decode_expr(&true_op()), GateExpr::True);
}

#[test]
fn decode_equal_consts_are_not_a_gate_class_when_distinct() {
    let region = concat(&[uint64(1), uint64(2), equal()]);
    assert_eq!(decode_expr(&region), GateExpr::EqConst { a: 1, b: 2 });
}

#[test]
fn decode_unknown_opcode_is_other() {
    let region = concat(&[vec![0x42u8, 0x03, 0x07], equal()]);
    assert_eq!(decode_expr(&region), GateExpr::Other);
}

#[test]
fn decode_wrong_shape_is_other() {
    assert_eq!(decode_expr(&uint64(1)), GateExpr::Other);
    assert_eq!(decode_expr(&concat(&[uint64(1), equal()])), GateExpr::Other);
    assert_eq!(
        decode_expr(&concat(&[eq_id_val(1, 1), true_op()])),
        GateExpr::Other
    );
    assert_eq!(decode_expr(&[]), GateExpr::Other);
}

#[test]
fn decode_truncated_region_is_other() {
    let mut region = concat(&[uint64(1), uint64(1), equal()]);
    region.truncate(region.len() - 3);
    assert_eq!(decode_expr(&region), GateExpr::Other);
}

#[test]
fn plan_gates_skip_unlocked_passes_already_unlocked() {
    let mut ifr = form_set(7);
    ifr.extend(form(10002, 20));
    ifr.extend(opcode(IFR_SUPPRESS_IF_OP, true, &[]));
    ifr.extend(uint64(1));
    ifr.extend(uint64(2));
    ifr.extend(equal());
    ifr.extend(ref_op(10029, 0x003A));
    ifr.extend(end());
    ifr.extend(end());
    ifr.extend(form(10029, 21));
    ifr.extend(opcode(IFR_GRAY_OUT_IF_OP, true, &[]));
    ifr.extend(eq_id_val(0x009A, 0xFFFF));
    ifr.extend(one_of_op(0x003B));
    ifr.extend(end());
    ifr.extend(end());
    ifr.extend(end());
    ifr.extend(end());
    let pkg = package(&ifr);

    let form_gates = find_gates(&pkg, &FORM_GATE_TARGET);
    assert!(!form_gates.is_empty());
    assert!(
        plan_gates_skip_unlocked(&pkg, &form_gates)
            .unwrap()
            .is_empty()
    );

    let q_gates = find_gates(&pkg, &QUESTION_GATE_TARGET);
    assert!(!q_gates.is_empty());
    assert!(plan_gates_skip_unlocked(&pkg, &q_gates).unwrap().is_empty());
}

#[test]
fn plan_gates_skip_unlocked_plans_only_locked() {
    let mut ifr = form_set(7);
    ifr.extend(form(10029, 21));
    ifr.extend(opcode(IFR_GRAY_OUT_IF_OP, true, &[]));
    ifr.extend(eq_id_val(0x009A, 1));
    ifr.extend(one_of_op(0x003B));
    ifr.extend(opcode(IFR_GRAY_OUT_IF_OP, true, &[]));
    ifr.extend(eq_id_val(0x009B, 0xFFFF));
    ifr.extend(one_of_op(0x003C));
    ifr.extend(end());
    ifr.extend(end());
    ifr.extend(end());
    let pkg = package(&ifr);
    let gates = find_gates(
        &pkg,
        &GateTarget {
            form_id: 10029,
            question_id: Some(0x003B),
        },
    );
    let flips = plan_gates_skip_unlocked(&pkg, &gates).unwrap();
    assert_eq!(flips.len(), 1);
    assert_eq!(flips[0].to, 0xFFFFu16.to_le_bytes().to_vec());
}

#[test]
fn plan_gates_skip_unlocked_errors_on_wide_storage() {
    let mut ifr = form_set(7);
    ifr.extend(form(10029, 21));
    ifr.extend(numeric_op(0x009A, 0x01));
    ifr.extend(opcode(IFR_GRAY_OUT_IF_OP, true, &[]));
    ifr.extend(eq_id_val(0x009A, 1));
    ifr.extend(one_of_op(0x003B));
    ifr.extend(end());
    ifr.extend(end());
    ifr.extend(end());
    let pkg = package(&ifr);
    let gates = find_gates(&pkg, &QUESTION_GATE_TARGET);
    assert!(plan_gates_skip_unlocked(&pkg, &gates).is_err());
}

