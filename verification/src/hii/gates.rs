//! Gates: SUPPRESS_IF / GRAY_OUT_IF scopes around a form, a REF to it, or a
//! question, with the condition they test. Flipping a constant condition in
//! place (same length) is how a hidden or locked item is released.

use vstd::prelude::*;
use vstd::string::StringSliceAdditionalSpecFns;
use crate::bytes::{
    le16, le64, read_u16, read_u64, splice_at, le16_bytes, u16_bytes, write_at, bytes_at_eq, lemma_le16_sub,
    lemma_le64_sub,
};
use crate::render::{
    hex_text, dec_text, hex_run_text, push_str, push_dec, push_hex, push_hex_run, ascii_string,
};
use crate::text::utf8_text;
use crate::hii::ifr::{op_len, op_scoped, op_ok, op_header, package_bounds, spec_package_bounds};
use crate::hii::opcodes::{
    IFR_ACTION_OP, IFR_CHECKBOX_OP, IFR_DATE_OP, IFR_DEFAULT_OP, IFR_END_OP, IFR_EQ_ID_VAL_OP,
    IFR_EQUAL_OP, IFR_FORM_OP, IFR_GRAY_OUT_IF_OP, IFR_NUMERIC_OP, IFR_ONE_OF_OP,
    IFR_ONE_OF_OPTION_OP, IFR_ORDERED_LIST_OP, IFR_PASSWORD_OP, IFR_REF_OP, IFR_STRING_OP,
    IFR_SUBTITLE_OP, IFR_SUPPRESS_IF_OP, IFR_TEXT_OP, IFR_TIME_OP, IFR_TRUE_OP, IFR_UINT64_OP,
    IFR_NUMERIC_SIZE,
};

verus! {

#[derive(Debug, Clone, Copy, PartialEq, Eq)]
pub enum GateKind {
    Suppress,
    Grayout,
}

impl GateKind {
    pub fn as_str(self) -> (r: &'static str)
        ensures
            r@ == (match self {
                GateKind::Suppress => "suppress"@,
                GateKind::Grayout => "grayout"@,
            }),
    {
        match self {
            GateKind::Suppress => "suppress",
            GateKind::Grayout => "grayout",
        }
    }
}

/// What a gate wraps.
#[derive(Debug, Clone, Copy, PartialEq, Eq)]
pub enum Wraps {
    Form { form_id: u16 },
    Ref { form_id: u16, host_form_id: u16 },
    Question { form_id: u16, question_id: u16 },
}

/// A gate's condition, when it is one of the recognised shapes.
#[derive(Debug, Clone, Copy, PartialEq, Eq)]
pub enum GateExpr {
    EqConst { a: u64, b: u64 },
    EqIdVal { question_id: u16, value: u16 },
    True,
    Other,
}

#[derive(Debug, Clone, Copy, PartialEq, Eq)]
pub struct Gate {
    pub kind: GateKind,
    pub wraps: Wraps,
    pub scope_offset: usize,
    pub expr_offset: usize,
    pub expr_end: usize,
    pub expr: GateExpr,
}

/// The item whose gates are wanted: a form, or a question of a form.
#[derive(Debug, Clone, Copy, PartialEq, Eq)]
pub struct GateTarget {
    pub form_id: u16,
    pub question_id: Option<u16>,
}

/// The opcodes of a condition region, END opcodes left out; `None` when an
/// opcode length is below 2 or overruns the region.
pub open spec fn expr_ops_from(r: Seq<u8>, i: int) -> Option<Seq<(u8, Seq<u8>)>>
    decreases r.len() - i,
{
    if i < 0 || i + 2 > r.len() {
        Some(seq![])
    } else if !op_ok(r, r.len() as int, i) {
        None
    } else {
        match expr_ops_from(r, i + op_len(r, i)) {
            None => None,
            Some(rest) => if r[i] == IFR_END_OP {
                Some(rest)
            } else {
                Some(seq![(r[i], r.subrange(i + 2, i + op_len(r, i)))] + rest)
            },
        }
    }
}

/// The condition a region encodes.
pub open spec fn spec_decode_expr(r: Seq<u8>) -> GateExpr {
    match expr_ops_from(r, 0) {
        None => GateExpr::Other,
        Some(ops) => if ops.len() == 3 && ops[0].0 == IFR_UINT64_OP && ops[1].0 == IFR_UINT64_OP
            && ops[2].0 == IFR_EQUAL_OP && ops[0].1.len() == 8 && ops[1].1.len() == 8 {
            GateExpr::EqConst { a: le64(ops[0].1, 0) as u64, b: le64(ops[1].1, 0) as u64 }
        } else if ops.len() == 1 && ops[0].0 == IFR_EQ_ID_VAL_OP && ops[0].1.len() == 4 {
            GateExpr::EqIdVal {
                question_id: le16(ops[0].1, 0) as u16,
                value: le16(ops[0].1, 2) as u16,
            }
        } else if ops.len() == 1 && ops[0].0 == IFR_TRUE_OP {
            GateExpr::True
        } else {
            GateExpr::Other
        },
    }
}

/// Decodes a gate condition: `a == b` on two 64-bit constants, a question
/// compared to a value, `true`, or anything else.
pub fn decode_expr(region: &[u8]) -> (e: GateExpr)
    ensures
        e == spec_decode_expr(region@),
{
    let n = region.len();
    let mut ops: Vec<u8> = Vec::new();
    let mut starts: Vec<usize> = Vec::new();
    let mut lens: Vec<usize> = Vec::new();
    let ghost mut acc: Seq<(u8, Seq<u8>)> = seq![];
    let mut i: usize = 0;
    while i <= n && n - i >= 2
        invariant
            n == region@.len(),
            ops@.len() == acc.len(),
            starts@.len() == acc.len(),
            lens@.len() == acc.len(),
            forall|k: int|
                #![trigger acc[k]]
                0 <= k < acc.len() ==> {
                    &&& acc[k].0 == ops@[k]
                    &&& starts@[k] + lens@[k] <= n
                    &&& acc[k].1 == region@.subrange(starts@[k] as int, starts@[k] + lens@[k])
                },
            expr_ops_from(region@, 0) == match expr_ops_from(region@, i as int) {
                None => None,
                Some(rest) => Some(acc + rest),
            },
        decreases n - i,
    {
        let (op, len, _scoped) = op_header(region, i);
        if len < 2 || len > n - i {
            return GateExpr::Other;
        }
        if op != IFR_END_OP {
            let ghost old_ops = ops@;
            let ghost old_starts = starts@;
            let ghost old_lens = lens@;
            let ghost old_acc = acc;
            ops.push(op);
            starts.push(i + 2);
            lens.push(len - 2);
            proof {
                let item = (op, region@.subrange(i + 2, i + len));
                match expr_ops_from(region@, i + len) {
                    None => {},
                    Some(rest) => {
                        assert(acc + (seq![item] + rest) =~= acc.push(item) + rest);
                    },
                }
                acc = acc.push(item);
                assert forall|k: int| 0 <= k < acc.len() implies {
                    &&& acc[k].0 == ops@[k]
                    &&& starts@[k] + lens@[k] <= n
                    &&& acc[k].1 == region@.subrange(starts@[k] as int, starts@[k] + lens@[k])
                } by {
                    if k < old_acc.len() {
                        assert(acc[k] == old_acc[k]);
                        assert(ops@[k] == old_ops[k]);
                        assert(starts@[k] == old_starts[k]);
                        assert(lens@[k] == old_lens[k]);
                    }
                }
            }
        }
        i = i + len;
    }
    assert(acc + seq![] =~= acc);
    let count = ops.len();
    if count == 3 && ops[0] == IFR_UINT64_OP && ops[1] == IFR_UINT64_OP && ops[2] == IFR_EQUAL_OP
        && lens[0] == 8 && lens[1] == 8 {
        let a = read_u64(region, starts[0]);
        let b = read_u64(region, starts[1]);
        proof {
            let x = acc[0];
            let y = acc[1];
            lemma_le64_sub(region@, starts@[0] as int, starts@[0] + 8, 0);
            lemma_le64_sub(region@, starts@[1] as int, starts@[1] + 8, 0);
        }
        return GateExpr::EqConst { a, b };
    }
    if count == 1 && ops[0] == IFR_EQ_ID_VAL_OP && lens[0] == 4 {
        let q = read_u16(region, starts[0]);
        let v = read_u16(region, starts[0] + 2);
        proof {
            let x = acc[0];
            lemma_le16_sub(region@, starts@[0] as int, starts@[0] + 4, 0);
            lemma_le16_sub(region@, starts@[0] as int, starts@[0] + 4, 2);
        }
        return GateExpr::EqIdVal { question_id: q, value: v };
    }
    if count == 1 && ops[0] == IFR_TRUE_OP {
        return GateExpr::True;
    }
    GateExpr::Other
}

pub open spec fn is_gate_op(op: u8) -> bool {
    op == IFR_SUPPRESS_IF_OP || op == IFR_GRAY_OUT_IF_OP
}

/// Opcodes that end a gate's condition: forms, statements, questions,
/// options and defaults.
pub open spec fn is_statement_op(op: u8) -> bool {
    op == IFR_FORM_OP || op == IFR_SUBTITLE_OP || op == IFR_TEXT_OP || op == IFR_REF_OP || op
        == IFR_ONE_OF_OP || op == IFR_CHECKBOX_OP || op == IFR_NUMERIC_OP || op == IFR_PASSWORD_OP
        || op == IFR_ORDERED_LIST_OP || op == IFR_STRING_OP || op == IFR_DATE_OP || op
        == IFR_TIME_OP || op == IFR_ACTION_OP || op == IFR_ONE_OF_OPTION_OP || op == IFR_DEFAULT_OP
}

/// Opcodes that declare a question (question id at +6).
pub open spec fn is_question_op(op: u8) -> bool {
    op == IFR_ONE_OF_OP || op == IFR_CHECKBOX_OP || op == IFR_NUMERIC_OP || op == IFR_PASSWORD_OP
        || op == IFR_ORDERED_LIST_OP || op == IFR_STRING_OP || op == IFR_DATE_OP || op
        == IFR_TIME_OP || op == IFR_ACTION_OP
}

fn is_gate_op_exec(op: u8) -> (r: bool)
    ensures
        r == is_gate_op(op),
{
    op == IFR_SUPPRESS_IF_OP || op == IFR_GRAY_OUT_IF_OP
}

fn is_statement_op_exec(op: u8) -> (r: bool)
    ensures
        r == is_statement_op(op),
{
    op == IFR_FORM_OP || op == IFR_SUBTITLE_OP || op == IFR_TEXT_OP || op == IFR_REF_OP || op
        == IFR_ONE_OF_OP || op == IFR_CHECKBOX_OP || op == IFR_NUMERIC_OP || op == IFR_PASSWORD_OP
        || op == IFR_ORDERED_LIST_OP || op == IFR_STRING_OP || op == IFR_DATE_OP || op
        == IFR_TIME_OP || op == IFR_ACTION_OP || op == IFR_ONE_OF_OPTION_OP || op == IFR_DEFAULT_OP
}

pub fn is_question_op_exec(op: u8) -> (r: bool)
    ensures
        r == is_question_op(op),
{
    op == IFR_ONE_OF_OP || op == IFR_CHECKBOX_OP || op == IFR_NUMERIC_OP || op == IFR_PASSWORD_OP
        || op == IFR_ORDERED_LIST_OP || op == IFR_STRING_OP || op == IFR_DATE_OP || op
        == IFR_TIME_OP || op == IFR_ACTION_OP
}

/// An open scope met while walking for gates.
#[derive(Clone, Copy)]
pub struct Frame {
    pub op: u8,
    pub offset: usize,
    pub expr_end: Option<usize>,
    pub form_id: Option<u16>,
}


/// The innermost form among the first `k` frames.
pub open spec fn cur_form(stack: Seq<Frame>, k: int) -> Option<u16>
    decreases k,
{
    if k <= 0 {
        None
    } else if stack[k - 1].form_id is Some {
        stack[k - 1].form_id
    } else {
        cur_form(stack, k - 1)
    }
}

/// A statement opcode at `i` closes the condition of every frame still reading one.
pub open spec fn close_frame(f: Frame, i: int) -> Frame {
    if f.expr_end is None {
        Frame { op: f.op, offset: f.offset, expr_end: Some(i as usize), form_id: f.form_id }
    } else {
        f
    }
}

pub open spec fn close_exprs(stack: Seq<Frame>, i: int) -> Seq<Frame> {
    Seq::new(stack.len(), |k: int| close_frame(stack[k], i))
}

/// What the statement at `i` is, as far as the target goes.
pub open spec fn spec_wraps(
    b: Seq<u8>,
    stack: Seq<Frame>,
    i: int,
    op: u8,
    length: int,
    target: GateTarget,
) -> Option<Wraps> {
    if op == IFR_FORM_OP && length >= 6 {
        let fid = le16(b, i + 2) as u16;
        if fid == target.form_id && target.question_id is None {
            Some(Wraps::Form { form_id: fid })
        } else {
            None
        }
    } else if op == IFR_REF_OP && length >= 15 && target.question_id is None {
        let fid = le16(b, i + 13) as u16;
        if fid == target.form_id {
            Some(
                Wraps::Ref {
                    form_id: fid,
                    host_form_id: match cur_form(stack, stack.len() as int) {
                        Some(h) => h,
                        None => 0u16,
                    },
                },
            )
        } else {
            None
        }
    } else if is_question_op(op) && length >= 8 {
        let qid = le16(b, i + 6) as u16;
        if target.question_id == Some(qid) && cur_form(stack, stack.len() as int) == Some(
            target.form_id,
        ) {
            Some(Wraps::Question { form_id: target.form_id, question_id: qid })
        } else {
            None
        }
    } else {
        None
    }
}

/// What a frame reports as a gate around a wrapped statement at `stmt`.
pub open spec fn frame_gate(b: Seq<u8>, f: Frame, wraps: Wraps, stmt: int) -> Gate {
    let e: int = match f.expr_end {
        Some(e) => e as int,
        None => stmt,
    };
    Gate {
        kind: if f.op == IFR_SUPPRESS_IF_OP {
            GateKind::Suppress
        } else {
            GateKind::Grayout
        },
        wraps,
        scope_offset: f.offset,
        expr_offset: (f.offset + 2) as usize,
        expr_end: e as usize,
        expr: spec_decode_expr(b.subrange(f.offset + 2, e)),
    }
}

/// Gates of the first `k` frames, innermost first.
pub open spec fn gates_down(b: Seq<u8>, stack: Seq<Frame>, k: int, wraps: Wraps, stmt: int) -> Seq<
    Gate,
>
    decreases k,
{
    if k <= 0 {
        Seq::empty()
    } else {
        (if is_gate_op(stack[k - 1].op) {
            seq![frame_gate(b, stack[k - 1], wraps, stmt)]
        } else {
            Seq::empty()
        }) + gates_down(b, stack, k - 1, wraps, stmt)
    }
}

/// Gates reported at the statement at `i`.
pub open spec fn spec_emit(
    b: Seq<u8>,
    stack: Seq<Frame>,
    i: int,
    op: u8,
    length: int,
    target: GateTarget,
) -> Seq<Gate> {
    match spec_wraps(b, stack, i, op, length, target) {
        None => Seq::empty(),
        Some(w) => gates_down(b, stack, stack.len() as int, w, i),
    }
}

/// The innermost frame is a gate still reading its condition.
pub open spec fn in_gate_expr(stack: Seq<Frame>) -> bool {
    stack.len() > 0 && is_gate_op(stack.last().op) && stack.last().expr_end is None
}

/// The walk for gates from `i`, with open frames `stack` and gates found so far `acc`.
pub open spec fn gates_from(
    b: Seq<u8>,
    end: int,
    target: GateTarget,
    i: int,
    stack: Seq<Frame>,
    acc: Seq<Gate>,
) -> Seq<Gate>
    decreases end - i,
{
    if i < 0 || i + 2 > end || !op_ok(b, end, i) {
        acc
    } else {
        let op = b[i];
        let length = op_len(b, i);
        if op == IFR_END_OP {
            gates_from(
                b,
                end,
                target,
                i + length,
                if stack.len() > 0 {
                    stack.drop_last()
                } else {
                    stack
                },
                acc,
            )
        } else if in_gate_expr(stack) && !is_statement_op(op) && !is_gate_op(op) && !op_scoped(
            b,
            i,
        ) {
            gates_from(b, end, target, i + length, stack, acc)
        } else {
            let st1 = if is_statement_op(op) {
                close_exprs(stack, i)
            } else {
                stack
            };
            let acc1 = if is_statement_op(op) {
                acc + spec_emit(b, st1, i, op, length, target)
            } else {
                acc
            };
            let fid = if is_statement_op(op) && op == IFR_FORM_OP && length >= 6 {
                Some(le16(b, i + 2) as u16)
            } else {
                None
            };
            let st2 = if op_scoped(b, i) {
                st1.push(Frame { op, offset: i as usize, expr_end: None, form_id: fid })
            } else {
                st1
            };
            gates_from(b, end, target, i + length, st2, acc1)
        }
    }
}

pub open spec fn spec_find_gates(b: Seq<u8>, target: GateTarget) -> Seq<Gate> {
    gates_from(
        b,
        spec_package_bounds(b).1,
        target,
        spec_package_bounds(b).0,
        Seq::empty(),
        Seq::empty(),
    )
}

/// Every frame was opened before `i`, and a closed condition ends between
/// its opcode and `i`.
pub open spec fn frames_ok(stack: Seq<Frame>, i: int) -> bool {
    forall|k: int|
        #![trigger stack[k]]
        0 <= k < stack.len() ==> {
            &&& stack[k].offset + 2 <= i
            &&& match stack[k].expr_end {
                Some(e) => stack[k].offset + 2 <= e <= i,
                None => true,
            }
        }
}

fn close_open_exprs(stack: &mut Vec<Frame>, i: usize)
    ensures
        final(stack)@ == close_exprs(old(stack)@, i as int),
{
    let n = stack.len();
    let mut k: usize = 0;
    while k < n
        invariant
            n == old(stack)@.len(),
            stack@.len() == n,
            k <= n,
            forall|j: int|
                0 <= j < k ==> #[trigger] stack@[j] == close_frame(old(stack)@[j], i as int),
            forall|j: int| k <= j < n ==> #[trigger] stack@[j] == old(stack)@[j],
        decreases n - k,
    {
        let f = stack[k];
        if f.expr_end.is_none() {
            stack.set(k, Frame { op: f.op, offset: f.offset, expr_end: Some(i), form_id: f.form_id });
        }
        k = k + 1;
    }
    assert(stack@ =~= close_exprs(old(stack)@, i as int));
}

fn current_form(stack: &Vec<Frame>) -> (r: Option<u16>)
    ensures
        r == cur_form(stack@, stack@.len() as int),
{
    let mut k: usize = stack.len();
    while k > 0
        invariant
            k <= stack@.len(),
            cur_form(stack@, stack@.len() as int) == cur_form(stack@, k as int),
        decreases k,
    {
        if stack[k - 1].form_id.is_some() {
            return stack[k - 1].form_id;
        }
        k = k - 1;
    }
    None
}

fn gate_wraps(
    body: &[u8],
    stack: &Vec<Frame>,
    i: usize,
    op: u8,
    length: usize,
    target: &GateTarget,
) -> (r: Option<Wraps>)
    requires
        i + length <= body@.len(),
    ensures
        r == spec_wraps(body@, stack@, i as int, op, length as int, *target),
{
    let n = body.len();
    if op == IFR_FORM_OP && length >= 6 {
        let fid = read_u16(body, i + 2);
        if fid == target.form_id && target.question_id.is_none() {
            Some(Wraps::Form { form_id: fid })
        } else {
            None
        }
    } else if op == IFR_REF_OP && length >= 15 && target.question_id.is_none() {
        let fid = read_u16(body, i + 13);
        if fid == target.form_id {
            let host = match current_form(stack) {
                Some(h) => h,
                None => 0u16,
            };
            Some(Wraps::Ref { form_id: fid, host_form_id: host })
        } else {
            None
        }
    } else if is_question_op_exec(op) && length >= 8 {
        let qid = read_u16(body, i + 6);
        let wanted = match target.question_id {
            Some(q) => q == qid,
            None => false,
        };
        let in_form = match current_form(stack) {
            Some(f) => f == target.form_id,
            None => false,
        };
        if wanted && in_form {
            Some(Wraps::Question { form_id: target.form_id, question_id: qid })
        } else {
            None
        }
    } else {
        None
    }
}

fn emit_gates(
    body: &[u8],
    stack: &Vec<Frame>,
    stmt_offset: usize,
    op: u8,
    length: usize,
    target: &GateTarget,
    gates: &mut Vec<Gate>,
)
    requires
        stmt_offset + length <= body@.len(),
        frames_ok(stack@, stmt_offset as int),
    ensures
        final(gates)@ == old(gates)@ + spec_emit(
            body@,
            stack@,
            stmt_offset as int,
            op,
            length as int,
            *target,
        ),
{
    let wraps = match gate_wraps(body, stack, stmt_offset, op, length, target) {
        Some(w) => w,
        None => {
            assert(old(gates)@ + Seq::<Gate>::empty() =~= old(gates)@);
            return;
        },
    };
    let ghost total = gates_down(body@, stack@, stack@.len() as int, wraps, stmt_offset as int);
    let mut k: usize = stack.len();
    while k > 0
        invariant
            k <= stack@.len(),
            stmt_offset < body@.len(),
            frames_ok(stack@, stmt_offset as int),
            total == gates_down(body@, stack@, stack@.len() as int, wraps, stmt_offset as int),
            old(gates)@ + total == gates@ + gates_down(
                body@,
                stack@,
                k as int,
                wraps,
                stmt_offset as int,
            ),
        decreases k,
    {
        let f = stack[k - 1];
        let ghost rest = gates_down(body@, stack@, k - 1, wraps, stmt_offset as int);
        if is_gate_op_exec(f.op) {
            assert(stack@[k - 1] == f);
            let e = match f.expr_end {
                Some(e) => e,
                None => stmt_offset,
            };
            let expr = decode_expr(vstd::slice::slice_subrange(body, f.offset + 2, e));
            let g = Gate {
                kind: if f.op == IFR_SUPPRESS_IF_OP {
                    GateKind::Suppress
                } else {
                    GateKind::Grayout
                },
                wraps,
                scope_offset: f.offset,
                expr_offset: f.offset + 2,
                expr_end: e,
                expr,
            };
            assert(g == frame_gate(body@, f, wraps, stmt_offset as int));
            let ghost before = gates@;
            gates.push(g);
            assert(before + (seq![g] + rest) =~= gates@ + rest);
        } else {
            assert(Seq::<Gate>::empty() + rest =~= rest);
        }
        k = k - 1;
    }
    assert(gates@ + Seq::<Gate>::empty() =~= gates@);
}

/// Every gate (SUPPRESS_IF or GRAY_OUT_IF) that encloses the target: the
/// form itself, a REF to it, or the question inside its form; innermost
/// first at each wrapped statement.
pub fn find_gates(body: &[u8], target: &GateTarget) -> (gates: Vec<Gate>)
    ensures
        gates@ == spec_find_gates(body@, *target),
{
    let (start, end) = package_bounds(body);
    let mut gates: Vec<Gate> = Vec::new();
    let mut stack: Vec<Frame> = Vec::new();
    let mut i = start;
    while i <= end && end - i >= 2
        invariant
            end <= body@.len(),
            start == spec_package_bounds(body@).0,
            end == spec_package_bounds(body@).1,
            i >= start,
            frames_ok(stack@, i as int),
            spec_find_gates(body@, *target) == gates_from(
                body@,
                end as int,
                *target,
                i as int,
                stack@,
                gates@,
            ),
        decreases end - i,
    {
        let (op, length, scoped) = op_header(body, i);
        if length < 2 || length > end - i {
            return gates;
        }
        if op == IFR_END_OP {
            let _ = stack.pop();
            i = i + length;
            continue;
        }
        let in_expr = match stack.last() {
            Some(f) => is_gate_op_exec(f.op) && f.expr_end.is_none(),
            None => false,
        };
        let stmt = is_statement_op_exec(op);
        if in_expr && !stmt && !is_gate_op_exec(op) && !scoped {
            i = i + length;
            continue;
        }
        let mut form_id: Option<u16> = None;
        if stmt {
            close_open_exprs(&mut stack, i);
            emit_gates(body, &stack, i, op, length, target, &mut gates);
            if op == IFR_FORM_OP && length >= 6 {
                form_id = Some(read_u16(body, i + 2));
            }
        }
        if scoped {
            stack.push(Frame { op, offset: i, expr_end: None, form_id });
        }
        i = i + length;
    }
    gates
}


/// Storage width in bytes of a NUMERIC question with flags `flags`.
pub open spec fn numeric_width(flags: u8) -> u8 {
    if flags % 4 == 0 {
        1
    } else if flags % 4 == 1 {
        2
    } else if flags % 4 == 2 {
        4
    } else {
        8
    }
}

/// Storage width of the first statement declaring `qid`, scanning from `i`:
/// 1 for a checkbox, the size field of a numeric, unknown otherwise or when
/// the walk breaks.
pub open spec fn storage_width_from(b: Seq<u8>, end: int, i: int, qid: u16) -> Option<u8>
    decreases end - i,
{
    if i < 0 || i + 2 > end || !op_ok(b, end, i) {
        None
    } else if is_question_op(b[i]) && op_len(b, i) >= 8 && le16(b, i + 6) == qid {
        if b[i] == IFR_CHECKBOX_OP {
            Some(1u8)
        } else if b[i] == IFR_NUMERIC_OP && op_len(b, i) >= 13 {
            Some(numeric_width(b[i + 12]))
        } else {
            None
        }
    } else {
        storage_width_from(b, end, i + op_len(b, i), qid)
    }
}

pub open spec fn spec_question_storage_width(b: Seq<u8>, qid: u16) -> Option<u8> {
    storage_width_from(b, spec_package_bounds(b).1, spec_package_bounds(b).0, qid)
}

/// Storage width in bytes of the question `question_id`, when its
/// declaration says it (checkbox, numeric).
pub fn question_storage_width(body: &[u8], question_id: u16) -> (r: Option<u8>)
    ensures
        r == spec_question_storage_width(body@, question_id),
{
    let (start, end) = package_bounds(body);
    let mut i = start;
    while i <= end && end - i >= 2
        invariant
            end <= body@.len(),
            spec_question_storage_width(body@, question_id) == storage_width_from(
                body@,
                end as int,
                i as int,
                question_id,
            ),
        decreases end - i,
    {
        let (op, length, _scoped) = op_header(body, i);
        if length < 2 || length > end - i {
            return None;
        }
        if is_question_op_exec(op) && length >= 8 && read_u16(body, i + 6) == question_id {
            if op == IFR_CHECKBOX_OP {
                return Some(1);
            } else if op == IFR_NUMERIC_OP && length >= 13 {
                let flags = body[i + 12];
                let sz: u8 = flags & IFR_NUMERIC_SIZE;
                assert(sz < 8) by (bit_vector)
                    requires
                        sz == flags & 3u8,
                ;
                let w: u8 = 1u8 << sz;
                assert(w == numeric_width(flags)) by (bit_vector)
                    requires
                        w == 1u8 << sz,
                        sz == flags & 3u8,
                ;
                return Some(w);
            } else {
                return None;
            }
        }
        i = i + length;
    }
    None
}

/// A planned in-place rewrite: `to` over the bytes `from` at `offset`.
#[derive(Debug, Clone, PartialEq, Eq)]
pub struct PlannedFlip {
    pub offset: usize,
    pub from: Vec<u8>,
    pub to: Vec<u8>,
}

impl View for PlannedFlip {
    type V = (int, Seq<u8>, Seq<u8>);

    open spec fn view(&self) -> (int, Seq<u8>, Seq<u8>) {
        (self.offset as int, self.from@, self.to@)
    }
}

/// The flip that falsifies a gate condition: for `a == a` on constants, the
/// low byte of the second constant plus one (mod 256); for a question compared
/// to a value other than 0xFFFF, the value 0xFFFF, unless the question's
/// storage is wider than one byte. Nothing for any other condition.
pub open spec fn spec_plan_flip(b: Seq<u8>, g: Gate) -> Option<(int, Seq<u8>, Seq<u8>)> {
    match g.expr {
        GateExpr::EqConst { a, b: c } => if a == c {
            let off = g.expr_offset + op_len(b, g.expr_offset as int) + 2;
            Some((off, seq![b[off]], seq![((b[off] + 1) % 256) as u8]))
        } else {
            None
        },
        GateExpr::EqIdVal { question_id, value } => if value == 0xFFFF {
            None
        } else if spec_question_storage_width(b, question_id) matches Some(w) && w > 1 {
            None
        } else {
            Some((g.expr_offset + 4, le16_bytes(value), seq![0xFFu8, 0xFFu8]))
        },
        _ => None,
    }
}

/// Planning `g` reads only bytes inside `b`.
pub open spec fn plan_flip_safe(b: Seq<u8>, g: Gate) -> bool {
    &&& (g.expr matches GateExpr::EqConst { a, b: c } && a == c) ==> {
        &&& g.expr_offset + 1 < b.len()
        &&& g.expr_offset + op_len(b, g.expr_offset as int) + 2 < b.len()
    }
    &&& g.expr is EqIdVal ==> g.expr_offset + 4 <= usize::MAX
}

/// Planning `flip` for `gate`.
pub fn plan_flip(body: &[u8], gate: &Gate) -> (r: Option<PlannedFlip>)
    requires
        plan_flip_safe(body@, *gate),
    ensures
        match r {
            Some(f) => spec_plan_flip(body@, *gate) == Some(f@),
            None => spec_plan_flip(body@, *gate) is None,
        },
{
    let n = body.len();
    match gate.expr {
        GateExpr::EqConst { a, b } => {
            if a != b {
                return None;
            }
            let first_len = (body[gate.expr_offset + 1] & 0x7F) as usize;
            let x = body[gate.expr_offset + 1];
            assert(x & 0x7F == x % 128) by (bit_vector);
            let offset = gate.expr_offset + first_len + 2;
            let from = body[offset];
            let to = from.wrapping_add(1);
            let f = PlannedFlip { offset, from: vec![from], to: vec![to] };
            assert(f.from@ =~= seq![from]);
            assert(f.to@ =~= seq![((from + 1) % 256) as u8]);
            Some(f)
        },
        GateExpr::EqIdVal { question_id, value } => {
            if value == 0xFFFF {
                return None;
            }
            match question_storage_width(body, question_id) {
                Some(w) => {
                    if w > 1 {
                        return None;
                    }
                },
                None => {},
            }
            let f = PlannedFlip {
                offset: gate.expr_offset + 4,
                from: u16_bytes(value),
                to: vec![0xFFu8, 0xFFu8],
            };
            assert(f.to@ =~= seq![0xFFu8, 0xFFu8]);
            Some(f)
        },
        _ => None,
    }
}

/// The condition is already false: distinct constants, or a comparison with
/// the unreachable value 0xFFFF.
pub open spec fn spec_is_unlocked(e: GateExpr) -> bool {
    match e {
        GateExpr::EqConst { a, b } => a != b,
        GateExpr::EqIdVal { value, .. } => value == 0xFFFF,
        _ => false,
    }
}

pub fn is_unlocked_expr(expr: &GateExpr) -> (r: bool)
    ensures
        r == spec_is_unlocked(*expr),
{
    match expr {
        GateExpr::EqConst { a, b } => *a != *b,
        GateExpr::EqIdVal { value, .. } => *value == 0xFFFF,
        _ => false,
    }
}

/// The gates a planning pass works on: all of them, or only those whose
/// condition is not already false.
pub open spec fn considered(g: Gate, skip_unlocked: bool) -> bool {
    !(skip_unlocked && spec_is_unlocked(g.expr))
}

/// The flips planned for the first `n` gates.
pub open spec fn plans_of(b: Seq<u8>, gs: Seq<Gate>, n: int, skip_unlocked: bool) -> Seq<
    (int, Seq<u8>, Seq<u8>),
>
    decreases n,
{
    if n <= 0 {
        Seq::empty()
    } else if considered(gs[n - 1], skip_unlocked) {
        plans_of(b, gs, n - 1, skip_unlocked).push(spec_plan_flip(b, gs[n - 1])->0)
    } else {
        plans_of(b, gs, n - 1, skip_unlocked)
    }
}

/// Every considered gate before `k` has a flip.
pub open spec fn planned_before(b: Seq<u8>, gs: Seq<Gate>, k: int, skip_unlocked: bool) -> bool {
    forall|j: int|
        0 <= j < k && considered(gs[j], skip_unlocked) ==> (#[trigger] spec_plan_flip(b, gs[j]))
            is Some
}

/// The condition bytes of a gate, as far as they lie in `b`.
pub open spec fn gate_region(b: Seq<u8>, g: Gate) -> Seq<u8> {
    b.subrange(
        g.expr_offset as int,
        if g.expr_end < b.len() {
            g.expr_end as int
        } else {
            b.len() as int
        },
    )
}

/// Debug rendering of what a gate wraps.
pub open spec fn wraps_text(w: Wraps) -> Seq<u8> {
    match w {
        Wraps::Form { form_id } => "Form { form_id: ".spec_bytes() + dec_text(form_id as nat)
            + " }".spec_bytes(),
        Wraps::Ref { form_id, host_form_id } => "Ref { form_id: ".spec_bytes() + dec_text(
            form_id as nat,
        ) + ", host_form_id: ".spec_bytes() + dec_text(host_form_id as nat) + " }".spec_bytes(),
        Wraps::Question { form_id, question_id } => "Question { form_id: ".spec_bytes()
            + dec_text(form_id as nat) + ", question_id: ".spec_bytes() + dec_text(
            question_id as nat,
        ) + " }".spec_bytes(),
    }
}

pub open spec fn kind_text(k: GateKind) -> Seq<u8> {
    match k {
        GateKind::Suppress => "suppress".spec_bytes(),
        GateKind::Grayout => "grayout".spec_bytes(),
    }
}

/// The diagnostic for a gate whose condition has no flip.
pub open spec fn refusal_text(b: Seq<u8>, g: Gate) -> Seq<u8> {
    kind_text(g.kind) + " gate at pkg+0x".spec_bytes() + hex_text(g.scope_offset as nat)
        + " wrapping ".spec_bytes() + wraps_text(g.wraps) + ": expression [".spec_bytes()
        + hex_run_text(gate_region(b, g)) + "] is not a hardware-validated flip class".spec_bytes()
}

fn push_wraps(out: &mut Vec<u8>, w: Wraps)
    ensures
        final(out)@ == old(out)@ + wraps_text(w),
{
    match w {
        Wraps::Form { form_id } => {
            push_str(out, "Form { form_id: ");
            push_dec(out, form_id);
            push_str(out, " }");
        },
        Wraps::Ref { form_id, host_form_id } => {
            push_str(out, "Ref { form_id: ");
            push_dec(out, form_id);
            push_str(out, ", host_form_id: ");
            push_dec(out, host_form_id);
            push_str(out, " }");
        },
        Wraps::Question { form_id, question_id } => {
            push_str(out, "Question { form_id: ");
            push_dec(out, form_id);
            push_str(out, ", question_id: ");
            push_dec(out, question_id);
            push_str(out, " }");
        },
    }
}

fn refusal_message(body: &[u8], gate: &Gate) -> (m: String)
    requires
        gate.expr_offset <= gate.expr_end,
        gate.expr_offset <= body@.len(),
    ensures
        m@ == utf8_text(refusal_text(body@, *gate)),
{
    let mut out: Vec<u8> = Vec::new();
    let ks = gate.kind.as_str();
    push_str(&mut out, ks);
    assert(ks.spec_bytes() == kind_text(gate.kind)) by {
        match gate.kind {
            GateKind::Suppress => {},
            GateKind::Grayout => {},
        }
    }
    push_str(&mut out, " gate at pkg+0x");
    push_hex(&mut out, gate.scope_offset);
    push_str(&mut out, " wrapping ");
    push_wraps(&mut out, gate.wraps);
    push_str(&mut out, ": expression [");
    let stop = if gate.expr_end < body.len() {
        gate.expr_end
    } else {
        body.len()
    };
    push_hex_run(&mut out, vstd::slice::slice_subrange(body, gate.expr_offset, stop));
    push_str(&mut out, "] is not a hardware-validated flip class");
    assert(out@ =~= refusal_text(body@, *gate));
    ascii_string(&out)
}

/// Plans are computable in order until the first gate without a flip.
pub open spec fn plannable(b: Seq<u8>, gs: Seq<Gate>, skip_unlocked: bool) -> bool {
    forall|k: int|
        0 <= k < gs.len() && planned_before(b, gs, k, skip_unlocked) && #[trigger] considered(
            gs[k],
            skip_unlocked,
        ) ==> {
            &&& plan_flip_safe(b, gs[k])
            &&& spec_plan_flip(b, gs[k]) is None ==> gs[k].expr_offset <= gs[k].expr_end
                && gs[k].expr_offset <= b.len()
        }
}

/// The outcome of a planning pass: the flips of the considered gates, or the
/// diagnostic of the first considered gate that has none.
pub open spec fn plan_result_ok(
    b: Seq<u8>,
    gs: Seq<Gate>,
    skip_unlocked: bool,
    r: Result<Vec<PlannedFlip>, String>,
) -> bool {
    match r {
        Ok(flips) => {
            &&& planned_before(b, gs, gs.len() as int, skip_unlocked)
            &&& flips@.map_values(|f: PlannedFlip| f@) == plans_of(
                b,
                gs,
                gs.len() as int,
                skip_unlocked,
            )
        },
        Err(m) => exists|k: int|
            0 <= k < gs.len() && planned_before(b, gs, k, skip_unlocked) && considered(
                gs[k],
                skip_unlocked,
            ) && (#[trigger] spec_plan_flip(b, gs[k])) is None && m@ == utf8_text(
                refusal_text(b, gs[k]),
            ),
    }
}

fn plan_pass(body: &[u8], gates: &[Gate], skip_unlocked: bool) -> (r: Result<
    Vec<PlannedFlip>,
    String,
>)
    requires
        plannable(body@, gates@, skip_unlocked),
    ensures
        plan_result_ok(body@, gates@, skip_unlocked, r),
{
    let mut flips: Vec<PlannedFlip> = Vec::new();
    let mut k: usize = 0;
    while k < gates.len()
        invariant
            k <= gates@.len(),
            plannable(body@, gates@, skip_unlocked),
            planned_before(body@, gates@, k as int, skip_unlocked),
            flips@.map_values(|f: PlannedFlip| f@) == plans_of(
                body@,
                gates@,
                k as int,
                skip_unlocked,
            ),
        decreases gates@.len() - k,
    {
        let gate = &gates[k];
        if skip_unlocked && is_unlocked_expr(&gate.expr) {
            k = k + 1;
            continue;
        }
        assert(considered(gates@[k as int], skip_unlocked));
        match plan_flip(body, gate) {
            Some(flip) => {
                let ghost before = flips@;
                flips.push(flip);
                assert(flips@.map_values(|f: PlannedFlip| f@) =~= before.map_values(
                    |f: PlannedFlip| f@,
                ).push(flip@));
            },
            None => {
                let m = refusal_message(body, gate);
                assert(spec_plan_flip(body@, gates@[k as int]) is None);
                return Err(m);
            },
        }
        k = k + 1;
    }
    Ok(flips)
}

/// Plans a flip for every gate, or refuses with the first gate whose
/// condition is not a flippable constant.
pub fn plan_gates(body: &[u8], gates: &[Gate]) -> (r: Result<Vec<PlannedFlip>, String>)
    requires
        plannable(body@, gates@, false),
    ensures
        plan_result_ok(body@, gates@, false, r),
{
    plan_pass(body, gates, false)
}

/// As `plan_gates`, leaving out gates whose condition is already false.
pub fn plan_gates_skip_unlocked(body: &[u8], gates: &[Gate]) -> (r: Result<
    Vec<PlannedFlip>,
    String,
>)
    requires
        plannable(body@, gates@, true),
    ensures
        plan_result_ok(body@, gates@, true, r),
{
    plan_pass(body, gates, true)
}


/// The gates among the first `n` of `gs` whose condition is not already
/// false, in order.
pub open spec fn live_gates(gs: Seq<Gate>, n: int) -> Seq<Gate>
    decreases n,
{
    if n <= 0 {
        seq![]
    } else if spec_is_unlocked(gs[n - 1].expr) {
        live_gates(gs, n - 1)
    } else {
        live_gates(gs, n - 1).push(gs[n - 1])
    }
}

/// The first gate among the first `n` that a pass considers and cannot
/// flip, if any.
pub open spec fn first_refused(b: Seq<u8>, gs: Seq<Gate>, n: int, skip_unlocked: bool) -> Option<Gate>
    decreases n,
{
    if n <= 0 {
        None
    } else {
        match first_refused(b, gs, n - 1, skip_unlocked) {
            Some(g) => Some(g),
            None => if considered(gs[n - 1], skip_unlocked) && spec_plan_flip(b, gs[n - 1]) is None {
                Some(gs[n - 1])
            } else {
                None
            },
        }
    }
}

proof fn lemma_planned_iff_none_refused(b: Seq<u8>, gs: Seq<Gate>, n: int, skip_unlocked: bool)
    requires
        0 <= n <= gs.len(),
    ensures
        planned_before(b, gs, n, skip_unlocked) <==> first_refused(b, gs, n, skip_unlocked) is None,
    decreases n,
{
    if n > 0 {
        lemma_planned_iff_none_refused(b, gs, n - 1, skip_unlocked);
        if planned_before(b, gs, n, skip_unlocked) {
            assert(planned_before(b, gs, n - 1, skip_unlocked));
            assert(considered(gs[n - 1], skip_unlocked) ==> spec_plan_flip(b, gs[n - 1]) is Some);
        }
        if first_refused(b, gs, n, skip_unlocked) is None {
            assert forall|j: int|
                0 <= j < n && considered(gs[j], skip_unlocked) implies (#[trigger] spec_plan_flip(
                b,
                gs[j],
            )) is Some by {
                if j < n - 1 {
                    assert(planned_before(b, gs, n - 1, skip_unlocked));
                }
            }
        }
    }
}

proof fn lemma_refusal_iff_first_refused(
    b: Seq<u8>,
    gs: Seq<Gate>,
    n: int,
    skip_unlocked: bool,
    m: Seq<char>,
)
    requires
        0 <= n <= gs.len(),
    ensures
        (exists|k: int|
            0 <= k < n && planned_before(b, gs, k, skip_unlocked) && considered(gs[k], skip_unlocked)
                && (#[trigger] spec_plan_flip(b, gs[k])) is None && m == utf8_text(
                refusal_text(b, gs[k]),
            )) <==> (first_refused(b, gs, n, skip_unlocked) matches Some(g) && m == utf8_text(
            refusal_text(b, g),
        )),
    decreases n,
{
    if n > 0 {
        lemma_refusal_iff_first_refused(b, gs, n - 1, skip_unlocked, m);
        lemma_planned_iff_none_refused(b, gs, n - 1, skip_unlocked);
        if exists|k: int|
            0 <= k < n && planned_before(b, gs, k, skip_unlocked) && considered(gs[k], skip_unlocked)
                && (#[trigger] spec_plan_flip(b, gs[k])) is None && m == utf8_text(
                refusal_text(b, gs[k]),
            ) {
            let k = choose|k: int|
                0 <= k < n && planned_before(b, gs, k, skip_unlocked) && considered(gs[k], skip_unlocked)
                    && (#[trigger] spec_plan_flip(b, gs[k])) is None && m == utf8_text(
                    refusal_text(b, gs[k]),
                );
            if k < n - 1 {
                assert(exists|k2: int|
                    0 <= k2 < n - 1 && planned_before(b, gs, k2, skip_unlocked) && considered(
                        gs[k2],
                        skip_unlocked,
                    ) && (#[trigger] spec_plan_flip(b, gs[k2])) is None && m == utf8_text(
                        refusal_text(b, gs[k2]),
                    ));
            }
        }
        if first_refused(b, gs, n, skip_unlocked) matches Some(g) && m == utf8_text(
            refusal_text(b, g),
        ) {
            if first_refused(b, gs, n - 1, skip_unlocked) is None {
                let k = n - 1;
                assert(planned_before(b, gs, k, skip_unlocked));
                assert(spec_plan_flip(b, gs[k]) is None);
            }
        }
    }
}

proof fn lemma_prefix_plans(b: Seq<u8>, s1: Seq<Gate>, s2: Seq<Gate>, n: int, skip_unlocked: bool)
    requires
        0 <= n <= s1.len(),
        n <= s2.len(),
        forall|i: int| 0 <= i < n ==> s1[i] == s2[i],
    ensures
        first_refused(b, s1, n, skip_unlocked) == first_refused(b, s2, n, skip_unlocked),
        plans_of(b, s1, n, skip_unlocked) == plans_of(b, s2, n, skip_unlocked),
    decreases n,
{
    if n > 0 {
        lemma_prefix_plans(b, s1, s2, n - 1, skip_unlocked);
        assert(s1[n - 1] == s2[n - 1]);
    }
}

proof fn lemma_live_plans(b: Seq<u8>, gs: Seq<Gate>, n: int)
    requires
        0 <= n <= gs.len(),
    ensures
        first_refused(b, gs, n, true) == first_refused(
            b,
            live_gates(gs, n),
            live_gates(gs, n).len() as int,
            false,
        ),
        plans_of(b, gs, n, true) == plans_of(b, live_gates(gs, n), live_gates(gs, n).len() as int, false),
    decreases n,
{
    if n > 0 {
        lemma_live_plans(b, gs, n - 1);
        let l0 = live_gates(gs, n - 1);
        if !spec_is_unlocked(gs[n - 1].expr) {
            let l1 = live_gates(gs, n);
            assert(l1 == l0.push(gs[n - 1]));
            lemma_prefix_plans(b, l1, l0, l0.len() as int, false);
            assert(l1[l0.len() as int] == gs[n - 1]);
        }
    }
}

proof fn lemma_live_index(gs: Seq<Gate>, n: int, j: int) -> (i: int)
    requires
        0 <= n <= gs.len(),
        0 <= j < live_gates(gs, n).len(),
    ensures
        0 <= i < n,
        live_gates(gs, n)[j] == gs[i],
        !spec_is_unlocked(gs[i].expr),
        live_gates(gs, i) == live_gates(gs, n).subrange(0, j),
    decreases n,
{
    let l0 = live_gates(gs, n - 1);
    if spec_is_unlocked(gs[n - 1].expr) {
        lemma_live_index(gs, n - 1, j)
    } else if j < l0.len() {
        let i = lemma_live_index(gs, n - 1, j);
        assert(live_gates(gs, n).subrange(0, j) =~= l0.subrange(0, j));
        i
    } else {
        assert(live_gates(gs, n).subrange(0, j) =~= l0);
        n - 1
    }
}

/// Planning with unlocked gates skipped is planning the gates that are not
/// unlocked: the same flips, or the same refusal. In particular, when every
/// gate is unlocked already the pass succeeds with no flip; and whenever the
/// skipping pass may run, so may the plain pass over the remaining gates.
pub proof fn law_skipping_unlocked_plans_the_live_gates(
    b: Seq<u8>,
    gs: Seq<Gate>,
    r: Result<Vec<PlannedFlip>, String>,
)
    ensures
        plan_result_ok(b, gs, true, r) == plan_result_ok(
            b,
            live_gates(gs, gs.len() as int),
            false,
            r,
        ),
        live_gates(gs, gs.len() as int).len() == 0 ==> (plan_result_ok(b, gs, true, r) <==> (r matches Ok(
            f,
        ) && f@.len() == 0)),
        plannable(b, gs, true) ==> plannable(b, live_gates(gs, gs.len() as int), false),
{
    let n = gs.len() as int;
    let l = live_gates(gs, n);
    if plannable(b, gs, true) {
        assert forall|k: int|
            0 <= k < l.len() && planned_before(b, l, k, false) && #[trigger] considered(
                l[k],
                false,
            ) implies {
            &&& plan_flip_safe(b, l[k])
            &&& spec_plan_flip(b, l[k]) is None ==> l[k].expr_offset <= l[k].expr_end
                && l[k].expr_offset <= b.len()
        } by {
            let i = lemma_live_index(gs, n, k);
            let li = live_gates(gs, i);
            lemma_planned_iff_none_refused(b, l, k, false);
            lemma_live_plans(b, gs, i);
            lemma_prefix_plans(b, li, l, k, false);
            lemma_planned_iff_none_refused(b, gs, i, true);
            assert(considered(gs[i], true));
        }
    }
    lemma_live_plans(b, gs, n);
    lemma_planned_iff_none_refused(b, gs, n, true);
    lemma_planned_iff_none_refused(b, l, l.len() as int, false);
    match r {
        Ok(f) => {
            if l.len() == 0 {
                assert(f@.map_values(|x: PlannedFlip| x@).len() == f@.len());
                assert(plans_of(b, l, 0, false).len() == 0);
                if f@.len() == 0 {
                    assert(f@.map_values(|x: PlannedFlip| x@) =~= plans_of(b, l, 0, false));
                }
            }
        },
        Err(m) => {
            lemma_refusal_iff_first_refused(b, gs, n, true, m@);
            lemma_refusal_iff_first_refused(b, l, l.len() as int, false, m@);
        },
    }
}

/// `f` applies to `b`: it fits, and `b` holds its `from` bytes.
pub open spec fn flip_applies(b: Seq<u8>, f: (int, Seq<u8>, Seq<u8>)) -> bool {
    &&& 0 <= f.0
    &&& f.0 + f.1.len() <= b.len()
    &&& f.0 + f.2.len() <= b.len()
    &&& b.subrange(f.0, f.0 + f.1.len()) == f.1
}

/// `b` after writing the `to` bytes of the first `n` flips, in order.
pub open spec fn apply_seq(b: Seq<u8>, fs: Seq<(int, Seq<u8>, Seq<u8>)>, n: int) -> Seq<u8>
    decreases n,
{
    if n <= 0 {
        b
    } else {
        splice_at(apply_seq(b, fs, n - 1), fs[n - 1].0, fs[n - 1].2)
    }
}

pub open spec fn stale_flip_text(offset: usize) -> Seq<u8> {
    "flip at pkg+0x".spec_bytes() + hex_text(offset as nat) + " precondition failed".spec_bytes()
}

pub proof fn lemma_apply_seq_len(b: Seq<u8>, fs: Seq<(int, Seq<u8>, Seq<u8>)>, n: int)
    requires
        0 <= n <= fs.len(),
        forall|k: int| 0 <= k < fs.len() ==> #[trigger] flip_applies(b, fs[k]),
    ensures
        apply_seq(b, fs, n).len() == b.len(),
    decreases n,
{
    if n > 0 {
        lemma_apply_seq_len(b, fs, n - 1);
        assert(flip_applies(b, fs[n - 1]));
    }
}

/// Writes every flip, after checking all of them against the body as it is:
/// either all apply and are written in order, or the body is left unchanged
/// and the first flip that does not apply is reported.
pub fn apply_flips(body: &mut [u8], flips: &[PlannedFlip]) -> (r: Result<(), String>)
    requires
        forall|k: int|
            0 <= k < flips@.len() ==> #[trigger] flips@[k].offset + flips@[k].from@.len()
                <= usize::MAX && flips@[k].offset + flips@[k].to@.len() <= usize::MAX,
    ensures
        ({
            let fs = flips@.map_values(|f: PlannedFlip| f@);
            match r {
                Ok(()) => {
                    &&& forall|k: int| 0 <= k < fs.len() ==> #[trigger] flip_applies(old(body)@, fs[k])
                    &&& final(body)@ == apply_seq(old(body)@, fs, fs.len() as int)
                },
                Err(m) => {
                    &&& final(body)@ == old(body)@
                    &&& exists|k: int|
                        0 <= k < fs.len() && !#[trigger] flip_applies(old(body)@, fs[k]) && (forall|
                            j: int,
                        | 0 <= j < k ==> flip_applies(old(body)@, fs[j])) && m@ == utf8_text(
                            stale_flip_text(flips@[k].offset),
                        )
                },
            }
        }),
{
    let ghost fs = flips@.map_values(|f: PlannedFlip| f@);
    let n = body.len();
    let mut k: usize = 0;
    while k < flips.len()
        invariant
            n == body@.len(),
            body@ == old(body)@,
            k <= flips@.len(),
            fs == flips@.map_values(|f: PlannedFlip| f@),
            forall|j: int| 0 <= j < k ==> #[trigger] flip_applies(old(body)@, fs[j]),
            forall|j: int|
                0 <= j < flips@.len() ==> #[trigger] flips@[j].offset + flips@[j].from@.len()
                    <= usize::MAX && flips@[j].offset + flips@[j].to@.len() <= usize::MAX,
        decreases flips@.len() - k,
    {
        let flip = &flips[k];
        assert(fs[k as int] == flip@);
        let ok = flip.offset + flip.from.len() <= n && flip.offset + flip.to.len() <= n
            && bytes_at_eq(body, flip.offset, flip.from.as_slice());
        if !ok {
            let mut out: Vec<u8> = Vec::new();
            push_str(&mut out, "flip at pkg+0x");
            push_hex(&mut out, flip.offset);
            push_str(&mut out, " precondition failed");
            assert(out@ =~= stale_flip_text(flip.offset));
            let m = ascii_string(&out);
            assert(!flip_applies(old(body)@, fs[k as int]));
            return Err(m);
        }
        k = k + 1;
    }
    proof {
        lemma_apply_seq_len(old(body)@, fs, fs.len() as int);
    }
    let mut k: usize = 0;
    while k < flips.len()
        invariant
            k <= flips@.len(),
            fs == flips@.map_values(|f: PlannedFlip| f@),
            forall|j: int| 0 <= j < fs.len() ==> #[trigger] flip_applies(old(body)@, fs[j]),
            body@ == apply_seq(old(body)@, fs, k as int),
        decreases flips@.len() - k,
    {
        let flip = &flips[k];
        assert(fs[k as int] == flip@);
        proof {
            lemma_apply_seq_len(old(body)@, fs, k as int);
            assert(flip_applies(old(body)@, fs[k as int]));
        }
        write_at(body, flip.offset, flip.to.as_slice());
        k = k + 1;
    }
    Ok(())
}


/// A reported gate: its condition starts right after its SUPPRESS_IF / GRAY_OUT_IF opcode, lies
/// inside the body, and decodes to the reported expression.
pub open spec fn gate_wf(b: Seq<u8>, g: Gate) -> bool {
    &&& g.expr_offset == g.scope_offset + 2
    &&& g.expr_offset <= g.expr_end <= b.len()
    &&& g.expr == spec_decode_expr(b.subrange(g.expr_offset as int, g.expr_end as int))
}

proof fn lemma_expr_ops_first(r: Seq<u8>, i: int)
    requires
        0 <= i,
        expr_ops_from(r, i) matches Some(ops) && ops.len() > 0,
    ensures
        i + 2 <= r.len(),
        op_ok(r, r.len() as int, i),
        i + 2 + expr_ops_from(r, i)->0[0].1.len() <= r.len(),
    decreases r.len() - i,
{
    let ops = expr_ops_from(r, i)->0;
    if r[i] == IFR_END_OP {
        lemma_expr_ops_first(r, i + op_len(r, i));
    }
}

proof fn lemma_expr_ops_second(r: Seq<u8>, i: int)
    requires
        0 <= i,
        expr_ops_from(r, i) matches Some(ops) && ops.len() >= 3,
    ensures
        i + 1 < r.len(),
        i + op_len(r, i) + 2 < r.len(),
{
    lemma_expr_ops_first(r, i);
    let j = i + op_len(r, i);
    let rest = expr_ops_from(r, j)->0;
    assert(rest.len() >= 2);
    lemma_expr_ops_first(r, j);
    let j2 = j + op_len(r, j);
    assert(expr_ops_from(r, j2)->0.len() >= 1);
    lemma_expr_ops_first(r, j2);
}

/// A well-formed gate can be planned, and its condition region read.
proof fn lemma_wf_gate_plannable(b: Seq<u8>, g: Gate)
    requires
        gate_wf(b, g),
        b.len() <= usize::MAX,
    ensures
        plan_flip_safe(b, g),
        g.expr_offset <= g.expr_end,
        g.expr_offset <= b.len(),
{
    let r = b.subrange(g.expr_offset as int, g.expr_end as int);
    if g.expr is EqConst || g.expr is EqIdVal {
        let ops = expr_ops_from(r, 0)->0;
        assert(expr_ops_from(r, 0) is Some);
        if g.expr is EqConst {
            lemma_expr_ops_second(r, 0);
            assert(r[1] == b[g.expr_offset + 1]);
        } else {
            lemma_expr_ops_first(r, 0);
        }
    }
}

/// Gates reported for a well-formed gate list can be planned in any pass.
pub proof fn lemma_wf_gates_plannable(b: Seq<u8>, gs: Seq<Gate>, skip_unlocked: bool)
    requires
        b.len() <= usize::MAX,
        forall|k: int| 0 <= k < gs.len() ==> #[trigger] gate_wf(b, gs[k]),
    ensures
        plannable(b, gs, skip_unlocked),
{
    assert forall|k: int|
        0 <= k < gs.len() && planned_before(b, gs, k, skip_unlocked) && #[trigger] considered(
            gs[k],
            skip_unlocked,
        ) implies {
        &&& plan_flip_safe(b, gs[k])
        &&& spec_plan_flip(b, gs[k]) is None ==> gs[k].expr_offset <= gs[k].expr_end
            && gs[k].expr_offset <= b.len()
    } by {
        assert(gate_wf(b, gs[k]));
        lemma_wf_gate_plannable(b, gs[k]);
    }
}

proof fn lemma_gates_down_wf(b: Seq<u8>, stack: Seq<Frame>, k: int, w: Wraps, stmt: int)
    requires
        0 <= k <= stack.len(),
        frames_ok(stack, stmt),
        stmt <= b.len() <= usize::MAX,
    ensures
        forall|j: int|
            0 <= j < gates_down(b, stack, k, w, stmt).len() ==> #[trigger] gate_wf(
                b,
                gates_down(b, stack, k, w, stmt)[j],
            ),
    decreases k,
{
    if k > 0 {
        lemma_gates_down_wf(b, stack, k - 1, w, stmt);
        let f = stack[k - 1];
        assert(frames_ok(stack, stmt));
        assert(f.offset + 2 <= stmt);
        let g = frame_gate(b, f, w, stmt);
        assert(gate_wf(b, g));
        let head: Seq<Gate> = if is_gate_op(f.op) {
            seq![g]
        } else {
            Seq::empty()
        };
        let rest = gates_down(b, stack, k - 1, w, stmt);
        assert(gates_down(b, stack, k, w, stmt) == head + rest);
        assert forall|j: int| 0 <= j < (head + rest).len() implies #[trigger] gate_wf(
            b,
            (head + rest)[j],
        ) by {
            if j >= head.len() {
                assert((head + rest)[j] == rest[j - head.len()]);
            }
        }
    }
}

proof fn lemma_gates_from_wf(
    b: Seq<u8>,
    end: int,
    t: GateTarget,
    i: int,
    stack: Seq<Frame>,
    acc: Seq<Gate>,
)
    requires
        0 <= i,
        end <= b.len() <= usize::MAX,
        frames_ok(stack, i),
        forall|k: int| 0 <= k < acc.len() ==> #[trigger] gate_wf(b, acc[k]),
    ensures
        forall|k: int|
            0 <= k < gates_from(b, end, t, i, stack, acc).len() ==> #[trigger] gate_wf(
                b,
                gates_from(b, end, t, i, stack, acc)[k],
            ),
    decreases end - i,
{
    if i < 0 || i + 2 > end || !op_ok(b, end, i) {
    } else {
        let op = b[i];
        let length = op_len(b, i);
        let next = i + length;
        if op == IFR_END_OP {
            let st = if stack.len() > 0 {
                stack.drop_last()
            } else {
                stack
            };
            assert(frames_ok(st, next)) by {
                assert forall|k: int| 0 <= k < st.len() implies #[trigger] st[k] == stack[k] by {}
            }
            lemma_gates_from_wf(b, end, t, next, st, acc);
            assert(gates_from(b, end, t, i, stack, acc) == gates_from(b, end, t, next, st, acc));
        } else if in_gate_expr(stack) && !is_statement_op(op) && !is_gate_op(op) && !op_scoped(
            b,
            i,
        ) {
            lemma_gates_from_wf(b, end, t, next, stack, acc);
            assert(gates_from(b, end, t, i, stack, acc) == gates_from(b, end, t, next, stack, acc));
        } else {
            let st1 = if is_statement_op(op) {
                close_exprs(stack, i)
            } else {
                stack
            };
            assert(frames_ok(st1, i)) by {
                assert forall|k: int| 0 <= k < st1.len() implies {
                    &&& st1[k].offset + 2 <= i
                    &&& match st1[k].expr_end {
                        Some(e) => st1[k].offset + 2 <= e <= i,
                        None => true,
                    }
                } by {
                    assert(stack[k].offset + 2 <= i);
                }
            }
            let acc1 = if is_statement_op(op) {
                acc + spec_emit(b, st1, i, op, length, t)
            } else {
                acc
            };
            if is_statement_op(op) {
                let em = spec_emit(b, st1, i, op, length, t);
                match spec_wraps(b, st1, i, op, length, t) {
                    None => {},
                    Some(w) => {
                        lemma_gates_down_wf(b, st1, st1.len() as int, w, i);
                    },
                }
                assert forall|k: int| 0 <= k < acc1.len() implies #[trigger] gate_wf(b, acc1[k]) by {
                    if k >= acc.len() {
                        assert(acc1[k] == em[k - acc.len()]);
                    } else {
                        assert(acc1[k] == acc[k]);
                    }
                }
            }
            let fid = if is_statement_op(op) && op == IFR_FORM_OP && length >= 6 {
                Some(le16(b, i + 2) as u16)
            } else {
                None
            };
            let st2 = if op_scoped(b, i) {
                st1.push(Frame { op, offset: i as usize, expr_end: None, form_id: fid })
            } else {
                st1
            };
            assert(frames_ok(st2, next)) by {
                assert forall|k: int| 0 <= k < st2.len() implies {
                    &&& st2[k].offset + 2 <= next
                    &&& match st2[k].expr_end {
                        Some(e) => st2[k].offset + 2 <= e <= next,
                        None => true,
                    }
                } by {
                    if k < st1.len() {
                        assert(st2[k] == st1[k]);
                    }
                }
            }
            lemma_gates_from_wf(b, end, t, next, st2, acc1);
            assert(gates_from(b, end, t, i, stack, acc) == gates_from(b, end, t, next, st2, acc1));
        }
    }
}

/// Every gate that `find_gates` reports is well formed: its condition region
/// follows its SUPPRESS_IF / GRAY_OUT_IF opcode, lies inside the body and decodes to the reported
/// expression; such gates can be handed to the planners.
pub proof fn law_found_gates_well_formed(b: Seq<u8>, t: GateTarget)
    requires
        b.len() <= usize::MAX,
    ensures
        forall|k: int|
            0 <= k < spec_find_gates(b, t).len() ==> #[trigger] gate_wf(b, spec_find_gates(b, t)[k]),
        plannable(b, spec_find_gates(b, t), false),
        plannable(b, spec_find_gates(b, t), true),
{
    lemma_gates_from_wf(
        b,
        spec_package_bounds(b).1,
        t,
        spec_package_bounds(b).0,
        Seq::empty(),
        Seq::empty(),
    );
    lemma_wf_gates_plannable(b, spec_find_gates(b, t), false);
    lemma_wf_gates_plannable(b, spec_find_gates(b, t), true);
}

/// The opcodes of a condition region from `i` on depend only on the bytes
/// from `i` on.
proof fn lemma_expr_ops_suffix(r1: Seq<u8>, r2: Seq<u8>, i: int)
    requires
        r1.len() == r2.len(),
        0 <= i,
        forall|k: int| i <= k < r1.len() ==> r1[k] == r2[k],
    ensures
        expr_ops_from(r1, i) == expr_ops_from(r2, i),
    decreases r1.len() - i,
{
    if i + 2 <= r1.len() {
        assert(r1[i + 1] == r2[i + 1]);
        if op_ok(r1, r1.len() as int, i) {
            lemma_expr_ops_suffix(r1, r2, i + op_len(r1, i));
            assert(r1[i] == r2[i]);
            assert(r1.subrange(i + 2, i + op_len(r1, i)) =~= r2.subrange(i + 2, i + op_len(r2, i)));
        }
    }
}

/// The decomposition of a region whose first opcode (not END) fits.
proof fn lemma_expr_ops_head(r: Seq<u8>, i: int)
    requires
        0 <= i,
        i + 2 <= r.len(),
        op_ok(r, r.len() as int, i),
        r[i] != IFR_END_OP,
        expr_ops_from(r, i + op_len(r, i)) is Some,
    ensures
        expr_ops_from(r, i) == Some(
            seq![(r[i], r.subrange(i + 2, i + op_len(r, i)))] + expr_ops_from(r, i + op_len(r, i))->0,
        ),
{
}

/// Writing the flip planned for a gate makes its condition false: read again,
/// the condition is already unlocked, so planning again refuses it and a pass
/// that skips unlocked gates leaves it alone. Stated for conditions whose
/// operands start the region (no END opcode ahead of the flipped operand).
pub proof fn law_planned_flip_unlocks(b: Seq<u8>, g: Gate)
    requires
        gate_wf(b, g),
        spec_plan_flip(b, g) is Some,
        g.expr_offset < b.len() && b[g.expr_offset as int] != IFR_END_OP,
        g.expr is EqConst ==> g.expr_offset + op_len(b, g.expr_offset as int) < b.len() && b[g.expr_offset
            + op_len(b, g.expr_offset as int)] != IFR_END_OP,
    ensures
        ({
            let f = spec_plan_flip(b, g)->0;
            let b2 = splice_at(b, f.0, f.2);
            &&& b2.len() == b.len()
            &&& spec_is_unlocked(
                spec_decode_expr(b2.subrange(g.expr_offset as int, g.expr_end as int)),
            )
        }),
{
    let eo = g.expr_offset as int;
    let ee = g.expr_end as int;
    let r = b.subrange(eo, ee);
    let f = spec_plan_flip(b, g)->0;
    let b2 = splice_at(b, f.0, f.2);
    let r2 = b2.subrange(eo, ee);
    let ops = expr_ops_from(r, 0)->0;
    assert(expr_ops_from(r, 0) is Some);
    lemma_expr_ops_first(r, 0);
    assert(r[0] == b[eo]);
    assert(r[1] == b[eo + 1]);
    let l0 = op_len(r, 0);
    let rest0 = expr_ops_from(r, l0);
    assert(rest0 is Some);
    lemma_expr_ops_head(r, 0);
    assert(ops[0] == (r[0], r.subrange(2, l0)));
    match g.expr {
        GateExpr::EqConst { a, b: c } => {
            assert(l0 == 10);
            let rest = rest0->0;
            assert(rest.len() == 2);
            lemma_expr_ops_first(r, l0);
            assert(r[l0] == b[eo + l0]);
            let l1 = op_len(r, l0);
            assert(expr_ops_from(r, l0 + l1) is Some);
            lemma_expr_ops_head(r, l0);
            assert(rest[0] == (r[l0], r.subrange(l0 + 2, l0 + l1)));
            assert(l1 == 10);
            let x = b[eo + 12];
            let x2 = ((x + 1) % 256) as u8;
            assert(f == (eo + 12, seq![x], seq![x2]));
            assert(b2.len() == b.len());
            assert(r2 =~= r.update(12, x2));
            lemma_expr_ops_suffix(r, r2, 20);
            assert(r2.subrange(12, 20) =~= r.subrange(12, 20).update(0, x2));
            assert(r2.subrange(2, 10) =~= r.subrange(2, 10));
            lemma_expr_ops_head(r2, 10);
            lemma_expr_ops_head(r2, 0);
            let ops2 = expr_ops_from(r2, 0)->0;
            assert(ops2 =~= ops.update(1, (ops[1].0, r2.subrange(12, 20))));
            let c2 = le64(r2.subrange(12, 20), 0);
            assert(c2 != le64(r.subrange(12, 20), 0));
        },
        GateExpr::EqIdVal { question_id, value } => {
            assert(l0 == 6);
            assert(rest0->0.len() == 0);
            assert(f == (eo + 4, le16_bytes(value), seq![0xFFu8, 0xFFu8]));
            assert(b2.len() == b.len());
            assert(r2 =~= r.update(4, 0xFFu8).update(5, 0xFFu8));
            lemma_expr_ops_suffix(r, r2, 6);
            lemma_expr_ops_head(r2, 0);
            assert(r2.subrange(2, 6) =~= seq![r[2], r[3], 0xFFu8, 0xFFu8]);
            assert(le16(r2.subrange(2, 6), 2) == 0xFFFF);
        },
        _ => {},
    }
}

/// The flips planned for well-formed gates stay within two bytes each and
/// start at most four bytes past the package.
pub proof fn lemma_plans_bounded(b: Seq<u8>, gs: Seq<Gate>, n: int, skip_unlocked: bool)
    requires
        b.len() <= usize::MAX,
        0 <= n <= gs.len(),
        forall|k: int| 0 <= k < gs.len() ==> #[trigger] gate_wf(b, gs[k]),
        planned_before(b, gs, n, skip_unlocked),
    ensures
        forall|k: int|
            0 <= k < plans_of(b, gs, n, skip_unlocked).len() ==> {
                let f = #[trigger] plans_of(b, gs, n, skip_unlocked)[k];
                &&& 0 <= f.0 <= b.len() + 4
                &&& f.1.len() <= 2
                &&& f.2.len() <= 2
            },
    decreases n,
{
    if n > 0 {
        lemma_plans_bounded(b, gs, n - 1, skip_unlocked);
        let g = gs[n - 1];
        if considered(g, skip_unlocked) {
            assert(gate_wf(b, g));
            lemma_wf_gate_plannable(b, g);
            assert(spec_plan_flip(b, g) is Some);
            let prev = plans_of(b, gs, n - 1, skip_unlocked);
            let f = spec_plan_flip(b, g)->0;
            assert(plans_of(b, gs, n, skip_unlocked) == prev.push(f));
            assert forall|k: int| 0 <= k < prev.len() + 1 implies {
                let h = #[trigger] prev.push(f)[k];
                &&& 0 <= h.0 <= b.len() + 4
                &&& h.1.len() <= 2
                &&& h.2.len() <= 2
            } by {
                if k < prev.len() {
                    assert(prev.push(f)[k] == prev[k]);
                }
            }
        }
    }
}

} // verus!