//! The variants of a REF opcode, told apart by its length: REF (form),
//! REF2 (form and question), REF3/REF4 (another formset), REF5 (a target
//! known only at run time).

use vstd::prelude::*;
use crate::bytes::{le16, read_u16};
use crate::guid::Guid;
use crate::hii::opcodes::IFR_REF_OP;

verus! {

/// Where a REF leads.
#[derive(Debug, Clone, Copy, PartialEq, Eq)]
pub enum RefTarget {
    Form { form_id: u16 },
    FormQuestion { form_id: u16, question_id: u16 },
    Formset { formset_guid: Guid, form_id: u16, question_id: u16 },
    Dynamic,
}

/// The target a REF statement declares, by its length: 13 dynamic, 15 a
/// form (+13), 17 a form and question (+13, +15), 33 and 35 a form and
/// question of the formset whose GUID is at +17; `None` for another opcode,
/// another length, or a length past the statement.
pub open spec fn spec_parse_ref(op: u8, s: Seq<u8>) -> Option<(int, u16, u16, Seq<u8>)> {
    if op != IFR_REF_OP || s.len() < 2 {
        None
    } else if (s[1] % 128) as int > s.len() {
        None
    } else {
        let len = (s[1] % 128) as int;
        if len == 13 {
            Some((13, 0u16, 0u16, Seq::empty()))
        } else if len == 15 {
            Some((15, le16(s, 13) as u16, 0u16, Seq::empty()))
        } else if len == 17 {
            Some((17, le16(s, 13) as u16, le16(s, 15) as u16, Seq::empty()))
        } else if len == 33 || len == 35 {
            Some((33, le16(s, 13) as u16, le16(s, 15) as u16, s.subrange(17, 33)))
        } else {
            None
        }
    }
}

/// A target matches the parse outcome: variant by the kind, fields by value.
pub open spec fn ref_target_is(t: RefTarget, p: (int, u16, u16, Seq<u8>)) -> bool {
    match t {
        RefTarget::Dynamic => p.0 == 13,
        RefTarget::Form { form_id } => p.0 == 15 && form_id == p.1,
        RefTarget::FormQuestion { form_id, question_id } => p.0 == 17 && form_id == p.1
            && question_id == p.2,
        RefTarget::Formset { formset_guid, form_id, question_id } => p.0 == 33 && form_id == p.1
            && question_id == p.2 && formset_guid@ == p.3,
    }
}

/// Parses a REF statement (opcode, length byte, body).
pub fn parse_ref(op: u8, stmt: &[u8]) -> (r: Option<RefTarget>)
    ensures
        match r {
            Some(t) => spec_parse_ref(op, stmt@) matches Some(p) && ref_target_is(t, p),
            None => spec_parse_ref(op, stmt@) is None,
        },
{
    let n = stmt.len();
    if op != IFR_REF_OP || n < 2 {
        return None;
    }
    let x = stmt[1];
    let len = (x & 0x7F) as usize;
    assert(x & 0x7F == x % 128) by (bit_vector);
    if len > n {
        return None;
    }
    if len == 13 {
        Some(RefTarget::Dynamic)
    } else if len == 15 {
        Some(RefTarget::Form { form_id: read_u16(stmt, 13) })
    } else if len == 17 {
        Some(RefTarget::FormQuestion { form_id: read_u16(stmt, 13), question_id: read_u16(stmt, 15) })
    } else if len == 33 || len == 35 {
        let form_id = read_u16(stmt, 13);
        let question_id = read_u16(stmt, 15);
        let mut g = [0u8; 16];
        let mut k: usize = 0;
        while k < 16
            invariant
                n == stmt@.len(),
                n >= 33,
                k <= 16,
                g@.len() == 16,
                forall|j: int| 0 <= j < k ==> g@[j] == stmt@[17 + j],
            decreases 16 - k,
        {
            g[k] = stmt[17 + k];
            k = k + 1;
        }
        assert(g@ =~= stmt@.subrange(17, 33));
        Some(RefTarget::Formset { formset_guid: Guid::from_bytes(g), form_id, question_id })
    } else {
        None
    }
}

} // verus!
