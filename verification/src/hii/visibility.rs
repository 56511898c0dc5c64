//! Making a hidden form visible: the SUPPRESS_IF scope that hides it is
//! emptied in place, in a RAW form package or in the first form package of a
//! PE32 section's HII resources that has such a scope.

use vstd::prelude::*;
use crate::bytes::{copy_range, write_at};
use crate::ffs::{EFI_SECTION_PE32, EFI_SECTION_RAW};
use crate::hii::ifr::{
    find_form_suppress_scope, find_suppress_if_scopes, is_form_package, law_unsuppress_keeps_length,
    lemma_found_scopes_ordered, spec_find_form_suppress_scope, spec_find_suppress_if_scopes,
    spec_is_form_package, spec_unsuppress, unsuppress, SuppressScope,
};
use crate::hii::unlock::range_pkg;
use crate::hii::{pe_resource_form_packages, spec_pe_resource_form_packages, HiiError};
use crate::types::FfsType;

verus! {

/// The scope that hides form `form_id` in package `b`, or without a form the
/// first SUPPRESS_IF scope of the package.
pub open spec fn scope_for(b: Seq<u8>, form_id: Option<u16>) -> Option<SuppressScope> {
    match form_id {
        Some(f) => spec_find_form_suppress_scope(b, f),
        None => if spec_find_suppress_if_scopes(b).len() > 0 {
            Some(spec_find_suppress_if_scopes(b)[0])
        } else {
            None
        },
    }
}

/// The first of the ranges `rs` (from `i` on) whose package has a scope to
/// unsuppress, with that scope.
pub open spec fn first_scoped(
    body: Seq<u8>,
    rs: Seq<(usize, usize)>,
    form_id: Option<u16>,
    i: int,
) -> Option<(int, SuppressScope)>
    decreases rs.len() - i,
{
    if i < 0 || i >= rs.len() {
        None
    } else {
        match scope_for(range_pkg(body, rs[i]), form_id) {
            Some(s) => Some((i, s)),
            None => first_scoped(body, rs, form_id, i + 1),
        }
    }
}

/// `body` with the scope `s` of its segment at `start` (of length `len`)
/// unsuppressed.
pub open spec fn unsuppress_in(body: Seq<u8>, start: int, len: int, s: SuppressScope) -> Seq<u8> {
    body.subrange(0, start) + spec_unsuppress(body.subrange(start, start + len), s.start as int, s.end as int)
        + body.subrange(start + len, body.len() as int)
}

/// The section body after making form `form_id` (or, without one, the first
/// suppressed block) visible, or why it is refused: the node is not a
/// section or not a setup section, hiding was asked for, or no scope hides
/// the form.
pub open spec fn spec_section_visibility(
    node_type: FfsType,
    subtype: u8,
    body: Seq<u8>,
    form_id: Option<u16>,
    visible: bool,
) -> Result<Seq<u8>, HiiError> {
    if !(node_type is Section) {
        Err(HiiError::NotASetupItem)
    } else if !visible {
        Err(HiiError::HidingUnsupported)
    } else if subtype == EFI_SECTION_RAW || spec_is_form_package(body) {
        match scope_for(body, form_id) {
            Some(s) => Ok(spec_unsuppress(body, s.start as int, s.end as int)),
            None => Err(HiiError::NoSuppressScope),
        }
    } else if subtype == EFI_SECTION_PE32 {
        match spec_pe_resource_form_packages(body) {
            None => Err(HiiError::NotASetupItem),
            Some(rs) => match first_scoped(body, rs, form_id, 0) {
                Some((i, s)) => Ok(unsuppress_in(body, rs[i].0 as int, rs[i].1 as int, s)),
                None => Err(HiiError::NoSuppressScope),
            },
        }
    } else {
        Err(HiiError::NotASetupItem)
    }
}

fn scope_in(b: &[u8], form_id: Option<u16>) -> (r: Option<SuppressScope>)
    ensures
        r == scope_for(b@, form_id),
        r matches Some(s) ==> s.start <= s.end,
{
    let _n = b.len();
    proof {
        lemma_found_scopes_ordered(
            b@,
            match form_id {
                Some(f) => f,
                None => 0,
            },
        );
    }
    match form_id {
        Some(f) => find_form_suppress_scope(b, f),
        None => {
            let scopes = find_suppress_if_scopes(b);
            if scopes.len() > 0 {
                Some(scopes[0])
            } else {
                None
            }
        },
    }
}

fn unsuppress_range(body: &mut Vec<u8>, start: usize, len: usize, scope: &SuppressScope)
    requires
        start + len <= old(body)@.len(),
        scope.start <= scope.end,
    ensures
        final(body)@ == unsuppress_in(old(body)@, start as int, len as int, *scope),
{
    let _n = body.len();
    let mut seg = copy_range(body.as_slice(), start, start + len);
    let ghost seg0 = seg@;
    unsuppress(seg.as_mut_slice(), scope);
    proof {
        law_unsuppress_keeps_length(seg0, scope.start as int, scope.end as int);
    }
    write_at(body.as_mut_slice(), start, seg.as_slice());
    assert(body@ =~= unsuppress_in(old(body)@, start as int, len as int, *scope));
}

/// Makes form `form_id` (or, without one, the first suppressed block) of a
/// section visible by emptying the SUPPRESS_IF scope that hides it; the body
/// keeps its length. Hiding is not supported.
pub fn set_section_visibility(
    node_type: FfsType,
    subtype: u8,
    body: &mut Vec<u8>,
    form_id: Option<u16>,
    visible: bool,
) -> (r: Result<(), HiiError>)
    ensures
        match spec_section_visibility(node_type, subtype, old(body)@, form_id, visible) {
            Ok(b2) => r is Ok && final(body)@ == b2,
            Err(e) => r == Err::<(), HiiError>(e) && final(body)@ == old(body)@,
        },
{
    match node_type {
        FfsType::Section => {},
        _ => return Err(HiiError::NotASetupItem),
    }
    if !visible {
        return Err(HiiError::HidingUnsupported);
    }
    if subtype == EFI_SECTION_RAW || is_form_package(body.as_slice()) {
        match scope_in(body.as_slice(), form_id) {
            Some(scope) => {
                unsuppress(body.as_mut_slice(), &scope);
                Ok(())
            },
            None => Err(HiiError::NoSuppressScope),
        }
    } else if subtype == EFI_SECTION_PE32 {
        let packages = match pe_resource_form_packages(body.as_slice()) {
            Some(p) => p,
            None => return Err(HiiError::NotASetupItem),
        };
        let ghost b = body@;
        let ghost rs = packages@;
        let n = body.len();
        let mut k: usize = 0;
        while k < packages.len()
            invariant
                body@ == b,
                b == old(body)@,
                n == b.len(),
                node_type is Section && visible,
                !(subtype == EFI_SECTION_RAW || spec_is_form_package(b)),
                subtype == EFI_SECTION_PE32,
                rs == packages@,
                spec_pe_resource_form_packages(b) == Some(rs),
                forall|j: int| 0 <= j < rs.len() ==> #[trigger] rs[j].0 + rs[j].1 <= b.len(),
                k <= rs.len(),
                first_scoped(b, rs, form_id, 0) == first_scoped(b, rs, form_id, k as int),
            decreases rs.len() - k,
        {
            let (start, len) = packages[k];
            let seg = vstd::slice::slice_subrange(body.as_slice(), start, start + len);
            assert(seg@ == range_pkg(b, rs[k as int]));
            match scope_in(seg, form_id) {
                Some(scope) => {
                    assert(first_scoped(b, rs, form_id, k as int) == Some((k as int, scope)));
                    unsuppress_range(body, start, len, &scope);
                    assert(rs[k as int] == (start, len));
                    assert(!(subtype == EFI_SECTION_RAW || spec_is_form_package(b)));
                    assert(node_type is Section && visible);
                    assert(spec_section_visibility(node_type, subtype, b, form_id, visible) == Ok::<
                        Seq<u8>,
                        HiiError,
                    >(body@));
                    return Ok(());
                },
                None => {},
            }
            k = k + 1;
        }
        Err(HiiError::NoSuppressScope)
    } else {
        Err(HiiError::NotASetupItem)
    }
}

} // verus!
