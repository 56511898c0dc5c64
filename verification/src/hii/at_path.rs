//! Edits of a setup item in a parsed image, the item given by the path of
//! child indices that leads to it: the checks every edit makes (the image
//! is writable, no compression the library cannot redo lies above the item,
//! the item is a section) and the edit itself, after which every node down
//! the path is marked for rebuilding.

use vstd::prelude::*;
use crate::bytes::copy_range;
use crate::builder::spec_recompressable_guid;
use crate::builder::recompressable_guid;
use crate::ffs::{EFI_SECTION_COMPRESSION, EFI_SECTION_GUID_DEFINED};
use crate::hii::gates::GateTarget;
use crate::hii::unlock::{unlock_outcome, unlock_section, SectionUnlock};
use crate::hii::{spec_form_package_ranges, HiiError};
use crate::ops::{
    body_set_at, lemma_body_set_keeps_paths, mark_rebuild_to_root_by_path, marked_along, node_at,
    path_ok, set_body_at, spec_node_at,
};
use crate::types::{FfsNode, FfsType, Image, ImageMode};

verus! {

/// A section below which the library cannot rebuild: a compression or
/// GUID-defined section that is not LZMA-guided.
pub open spec fn locks_mutation(n: FfsNode) -> bool {
    &&& n.node_type == FfsType::Section
    &&& n.subtype == EFI_SECTION_COMPRESSION || n.subtype == EFI_SECTION_GUID_DEFINED
    &&& !spec_recompressable_guid(n)
}

/// A node strictly between `n` and the end of `path` locks mutation.
pub open spec fn behind_compression(n: FfsNode, path: Seq<usize>) -> bool
    decreases path.len(),
{
    if path.len() <= 1 {
        false
    } else {
        let c = n.children@[path[0] as int];
        locks_mutation(c) || behind_compression(c, path.drop_first())
    }
}

fn is_behind_compression(n: &FfsNode, path: &[usize]) -> (r: bool)
    requires
        path_ok(*n, path@),
    ensures
        r == behind_compression(*n, path@),
    decreases path@.len(),
{
    if path.len() <= 1 {
        return false;
    }
    let c = &n.children[path[0]];
    let rest = vstd::slice::slice_subrange(path, 1, path.len());
    assert(rest@ =~= path@.drop_first());
    let locks = c.node_type == FfsType::Section && (c.subtype == EFI_SECTION_COMPRESSION
        || c.subtype == EFI_SECTION_GUID_DEFINED) && !recompressable_guid(c);
    locks || is_behind_compression(c, rest)
}

/// Why an edit of the item at `path` is refused before it starts, if it is:
/// the image is read-only, a compression the library cannot redo lies above
/// the item, or the item is not a section.
pub open spec fn edit_refusal(image: Image, path: Seq<usize>) -> Option<HiiError> {
    if image.mode != ImageMode::Write {
        Some(HiiError::NotWritable)
    } else if behind_compression(image.root, path) {
        Some(HiiError::MutationBehindCompression)
    } else if spec_node_at(image.root, path).node_type != FfsType::Section {
        Some(HiiError::NotASetupItem)
    } else {
        None
    }
}

fn check_edit(image: &Image, path: &[usize]) -> (r: Result<(), HiiError>)
    requires
        path_ok(image.root, path@),
    ensures
        match edit_refusal(*image, path@) {
            Some(e) => r == Err::<(), HiiError>(e),
            None => r is Ok,
        },
{
    match image.mode {
        ImageMode::Write => {},
        ImageMode::Read => return Err(HiiError::NotWritable),
    }
    if is_behind_compression(&image.root, path) {
        return Err(HiiError::MutationBehindCompression);
    }
    let node = node_at(&image.root, path);
    if node.node_type != FfsType::Section {
        return Err(HiiError::NotASetupItem);
    }
    Ok(())
}

/// `new` is `old` with the body of the item at `path` replaced by `body`
/// and every node down the path marked for rebuilding.
pub open spec fn edited_at(old: Image, new: Image, path: Seq<usize>, body: Seq<u8>) -> bool {
    &&& new.image_id@ == old.image_id@
    &&& new.session_id@ == old.session_id@
    &&& new.mode == old.mode
    &&& exists|mid: FfsNode| #[trigger]
        body_set_at(old.root, mid, path, body) && marked_along(mid, new.root, path)
}

fn write_item_body(image: &mut Image, path: &[usize], body: Vec<u8>)
    requires
        path_ok(old(image).root, path@),
    ensures
        edited_at(*old(image), *final(image), path@, body@),
{
    let ghost b = body@;
    set_body_at(&mut image.root, path, body);
    let ghost mid = image.root;
    proof {
        lemma_body_set_keeps_paths(old(image).root, mid, path@, b, path@);
    }
    mark_rebuild_to_root_by_path(&mut image.root, path);
    assert(body_set_at(old(image).root, mid, path@, b) && marked_along(mid, image.root, path@));
}

/// Unlocks the gates of `target` in the setup item at `path` (a section
/// found in a writable image, with no compression above it that the library
/// cannot redo): the section is unlocked as `unlock_section` does it, and
/// when flips were written the item takes the new body and the path is
/// marked for rebuilding. A refusal leaves the image as it was.
pub fn unlock_at(image: &mut Image, path: &[usize], target: &GateTarget) -> (r: Result<
    SectionUnlock,
    HiiError,
>)
    requires
        path@.len() > 0,
        path_ok(old(image).root, path@),
        spec_node_at(old(image).root, path@).body@.len() + 8 <= usize::MAX,
    ensures
        ({
            let n = spec_node_at(old(image).root, path@);
            match edit_refusal(*old(image), path@) {
                Some(e) => r == Err::<SectionUnlock, HiiError>(e) && *final(image) == *old(image),
                None => exists|b2: Seq<u8>|
                    #![trigger unlock_outcome(n.body@, b2, spec_form_package_ranges(n.subtype, n.body@), *target, r)]
                    {
                        &&& unlock_outcome(
                            n.body@,
                            b2,
                            spec_form_package_ranges(n.subtype, n.body@),
                            *target,
                            r,
                        )
                        &&& if r matches Ok(u) && u.applied@.len() > 0 {
                            edited_at(*old(image), *final(image), path@, b2)
                        } else {
                            *final(image) == *old(image)
                        }
                    },
            }
        }),
{
    match check_edit(image, path) {
        Ok(()) => {},
        Err(e) => return Err(e),
    }
    let node = node_at(&image.root, path);
    let subtype = node.subtype;
    let n = node.body.len();
    let mut body = copy_range(node.body.as_slice(), 0, n);
    assert(body@ =~= node.body@);
    let ghost b0 = body@;
    let r = unlock_section(subtype, &mut body, target);
    let ghost b2 = body@;
    match r {
        Ok(u) => {
            if u.applied.len() > 0 {
                write_item_body(image, path, body);
            }
            assert(unlock_outcome(b0, b2, spec_form_package_ranges(subtype, b0), *target, Ok::<SectionUnlock, HiiError>(u)));
            Ok(u)
        },
        Err(e) => {
            assert(unlock_outcome(b0, b2, spec_form_package_ranges(subtype, b0), *target, Err::<SectionUnlock, HiiError>(e)));
            Err(e)
        },
    }
}

} // verus!
