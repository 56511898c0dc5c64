//! Pieces of adding forms to an existing formset: the VARSTORE declarations a
//! request brings, and the file that owns the section being edited.

use vstd::prelude::*;
use crate::guid::Guid;
use crate::hii::formset_add::{
    emit_forms, forms_bytes, forms_ready, invalid_guid, invalid_guid_text, lemma_varstores_sticky,
    parse_guid, varstores_bytes,
};
use crate::hii::ifr::{formset_at, insert_form_into_package, spec_formset_insert_points, spec_insert_form};
use crate::hii::string_ids::StringIds;
use crate::hii::ifr_builder::IfrBuilder;
use crate::hii::schema::FormSetSchema;
use crate::hii::HiiError;
use crate::types::{FfsNode, FfsType};
use vstd::utf8::encode_utf8;

verus! {

/// The GUID of the last FILE node on `path` below `n` (`acc` when there is
/// none); `None` when the path leaves the tree.
pub open spec fn owner_from(n: FfsNode, path: Seq<usize>, acc: Option<Guid>) -> Option<Guid>
    decreases path.len(),
{
    if path.len() == 0 {
        acc
    } else if path[0] >= n.children@.len() {
        None
    } else {
        let c = n.children@[path[0] as int];
        owner_from(
            c,
            path.drop_first(),
            if c.node_type is File {
                c.guid
            } else {
                acc
            },
        )
    }
}

fn owner_from_exec(n: &FfsNode, path: &[usize], acc: Option<Guid>) -> (r: Option<Guid>)
    ensures
        r == owner_from(*n, path@, acc),
    decreases path@.len(),
{
    if path.len() == 0 {
        return acc;
    }
    let i = path[0];
    if i >= n.children.len() {
        return None;
    }
    let c = &n.children[i];
    let next = match c.node_type {
        FfsType::File => c.guid,
        _ => acc,
    };
    let rest = vstd::slice::slice_subrange(path, 1, path.len());
    assert(rest@ =~= path@.drop_first());
    owner_from_exec(c, rest, next)
}

/// The GUID of the file that owns the node `path` leads to: the innermost
/// FILE on the way; `None` when there is no such file or the path leaves the
/// tree.
pub fn owner_guid_by_path(root: &FfsNode, path: &[usize]) -> (r: Option<Guid>)
    ensures
        r == owner_from(*root, path@, None),
{
    owner_from_exec(root, path, None)
}

/// The VARSTORE opcodes that declare a request's variable stores; refused
/// with the GUID error when a store's GUID does not parse.
pub fn build_varstores(schema: &FormSetSchema) -> (r: Result<Vec<u8>, HiiError>)
    requires
        forall|i: int|
            0 <= i < schema.varstores@.len() ==> 23 + encode_utf8(
                #[trigger] schema.varstores@[i].name@,
            ).len() <= usize::MAX,
    ensures
        match varstores_bytes(schema.varstores@) {
            Some(v) => r matches Ok(b) && b@ == v,
            None => r matches Err(HiiError::InvalidSchema(m)) && m@ == invalid_guid_text(),
        },
{
    let mut b = IfrBuilder::new();
    let nv = schema.varstores.len();
    let mut k: usize = 0;
    assert(varstores_bytes(schema.varstores@.subrange(0, 0)) == Some(Seq::<u8>::empty()));
    while k < nv
        invariant
            nv == schema.varstores@.len(),
            k <= nv,
            forall|i: int|
                0 <= i < schema.varstores@.len() ==> 23 + encode_utf8(
                    #[trigger] schema.varstores@[i].name@,
                ).len() <= usize::MAX,
            varstores_bytes(schema.varstores@.subrange(0, k as int)) == Some(b@),
        decreases nv - k,
    {
        let vs = &schema.varstores[k];
        proof {
            let p = schema.varstores@.subrange(0, k + 1);
            assert(p.drop_last() =~= schema.varstores@.subrange(0, k as int));
        }
        let g = match parse_guid(&vs.guid) {
            Some(g) => g,
            None => {
                proof {
                    lemma_varstores_sticky(schema.varstores@, k + 1);
                }
                return Err(invalid_guid());
            },
        };
        assert(23 + encode_utf8(schema.varstores@[k as int].name@).len() <= usize::MAX);
        b.emit_var_store(vs.id, &g, vs.size, vs.name.as_str());
        proof {
            let p = schema.varstores@.subrange(0, k + 1);
            assert(b@ =~= varstores_bytes(p)->0);
        }
        k = k + 1;
    }
    assert(schema.varstores@.subrange(0, nv as int) =~= schema.varstores@);
    Ok(b.build())
}


/// Adds the forms of `schema` to formset `formset_idx` of the form package
/// `pkg`, with the string ids `ids` its texts were given: the formset must
/// exist, the variable stores must carry valid GUIDs, and then the stores
/// are declared after the formset header and the forms placed before its
/// END, the package length growing with them.
pub fn add_form_to_package(
    pkg: &mut Vec<u8>,
    formset_idx: usize,
    schema: &FormSetSchema,
    ids: &StringIds,
) -> (r: Result<(), HiiError>)
    requires
        forms_ready(schema.forms@, ids@),
        forall|i: int|
            0 <= i < schema.varstores@.len() ==> 23 + encode_utf8(
                #[trigger] schema.varstores@[i].name@,
            ).len() <= usize::MAX,
        old(pkg)@.len() + forms_bytes(schema.forms@, ids@).len() + (match varstores_bytes(
            schema.varstores@,
        ) {
            Some(v) => v.len(),
            None => 0,
        }) + 0x100_0000 <= usize::MAX,
    ensures
        match spec_formset_insert_points(old(pkg)@, formset_idx as int) {
            None => r matches Err(HiiError::NotFound) && final(pkg)@ == old(pkg)@,
            Some((a, e)) => match varstores_bytes(schema.varstores@) {
                None => r matches Err(HiiError::InvalidSchema(m)) && m@ == invalid_guid_text()
                    && final(pkg)@ == old(pkg)@,
                Some(v) => r is Ok && final(pkg)@ == spec_insert_form(
                    old(pkg)@,
                    a,
                    e,
                    forms_bytes(schema.forms@, ids@),
                    v,
                ),
            },
        },
{
    if !formset_at(pkg.as_slice(), formset_idx) {
        return Err(HiiError::NotFound);
    }
    let varstores = build_varstores(schema)?;
    let mut b = IfrBuilder::new();
    emit_forms(&mut b, schema, ids);
    let form_ifr = b.build();
    assert(form_ifr@ =~= forms_bytes(schema.forms@, ids@));
    if !insert_form_into_package(pkg, formset_idx, form_ifr.as_slice(), varstores.as_slice()) {
        return Err(HiiError::InvalidIfr);
    }
    Ok(())
}

} // verus!
