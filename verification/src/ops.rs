//! Navigation and in-place edits of the image tree by child-index paths.

use vstd::prelude::*;
use crate::types::{Action, FfsNode};

verus! {

/// Every index of `path` names a child, starting from `n`.
pub open spec fn path_ok(n: FfsNode, path: Seq<usize>) -> bool
    decreases path.len(),
{
    path.len() == 0 || (path[0] < n.children@.len() && path_ok(
        n.children@[path[0] as int],
        path.drop_first(),
    ))
}

/// The node `path` leads to from `n`.
pub open spec fn spec_node_at(n: FfsNode, path: Seq<usize>) -> FfsNode
    decreases path.len(),
{
    if path.len() == 0 {
        n
    } else {
        spec_node_at(n.children@[path[0] as int], path.drop_first())
    }
}

/// The node `path` leads to from `root`.
pub fn node_at<'a>(root: &'a FfsNode, path: &[usize]) -> (r: &'a FfsNode)
    requires
        path_ok(*root, path@),
    ensures
        *r == spec_node_at(*root, path@),
    decreases path@.len(),
{
    if path.len() == 0 {
        root
    } else {
        let i = path[0];
        let rest = vstd::slice::slice_subrange(path, 1, path.len());
        assert(rest@ =~= path@.drop_first());
        node_at(&root.children[i], rest)
    }
}

/// An untouched node is marked for rebuilding; a pending edit stays.
pub open spec fn rebuild_mark(a: Action) -> Action {
    if a == Action::NoAction {
        Action::Rebuild
    } else {
        a
    }
}

/// `new` differs from `old` at most in its action, body and children.
pub open spec fn same_shell(old: FfsNode, new: FfsNode) -> bool {
    &&& new.guid == old.guid
    &&& new.node_type == old.node_type
    &&& new.subtype == old.subtype
    &&& new.offset == old.offset
    &&& new.header@ == old.header@
    &&& new.tail@ == old.tail@
    &&& new.parsing_data == old.parsing_data
    &&& new.fixed == old.fixed
    &&& new.compressed == old.compressed
    &&& new.alignment_bytes@ == old.alignment_bytes@
}

/// `new` is `old` with every node on `path` (both ends included) marked for
/// rebuilding, and nothing else changed.
pub open spec fn marked_along(old: FfsNode, new: FfsNode, path: Seq<usize>) -> bool
    decreases path.len(),
{
    &&& same_shell(old, new)
    &&& new.body@ == old.body@
    &&& new.action == rebuild_mark(old.action)
    &&& new.children@.len() == old.children@.len()
    &&& if path.len() == 0 {
        new.children@ == old.children@
    } else {
        &&& forall|j: int|
            0 <= j < old.children@.len() && j != path[0] ==> new.children@[j]
                == old.children@[j]
        &&& marked_along(
            old.children@[path[0] as int],
            new.children@[path[0] as int],
            path.drop_first(),
        )
    }
}

/// Marks every node from `node` down `path` for rebuilding, so that the
/// builder re-serialises the edited node and every container around it.
pub fn mark_rebuild_to_root_by_path(node: &mut FfsNode, path: &[usize])
    requires
        path_ok(*old(node), path@),
    ensures
        marked_along(*old(node), *final(node), path@),
    decreases path@.len(),
{
    if node.action == Action::NoAction {
        node.action = Action::Rebuild;
    }
    if path.len() > 0 {
        let i = path[0];
        let rest = vstd::slice::slice_subrange(path, 1, path.len());
        assert(rest@ =~= path@.drop_first());
        mark_rebuild_to_root_by_path(&mut node.children[i], rest);
    }
}

/// `new` is `old` with the body of the node at `path` replaced by `body`,
/// and nothing else changed.
pub open spec fn body_set_at(old: FfsNode, new: FfsNode, path: Seq<usize>, body: Seq<u8>) -> bool
    decreases path.len(),
{
    &&& same_shell(old, new)
    &&& new.action == old.action
    &&& new.children@.len() == old.children@.len()
    &&& if path.len() == 0 {
        new.body@ == body && new.children@ == old.children@
    } else {
        &&& new.body@ == old.body@
        &&& forall|j: int|
            0 <= j < old.children@.len() && j != path[0] ==> new.children@[j]
                == old.children@[j]
        &&& body_set_at(
            old.children@[path[0] as int],
            new.children@[path[0] as int],
            path.drop_first(),
            body,
        )
    }
}

/// Replaces the body of the node `path` leads to.
pub fn set_body_at(node: &mut FfsNode, path: &[usize], body: Vec<u8>)
    requires
        path_ok(*old(node), path@),
    ensures
        body_set_at(*old(node), *final(node), path@, body@),
    decreases path@.len(),
{
    if path.len() == 0 {
        node.body = body;
    } else {
        let i = path[0];
        let rest = vstd::slice::slice_subrange(path, 1, path.len());
        assert(rest@ =~= path@.drop_first());
        set_body_at(&mut node.children[i], rest, body);
    }
}


/// Replacing a body keeps every path of the tree valid.
pub proof fn lemma_body_set_keeps_paths(old: FfsNode, new: FfsNode, p: Seq<usize>, b: Seq<u8>, q: Seq<usize>)
    requires
        body_set_at(old, new, p, b),
        path_ok(old, q),
    ensures
        path_ok(new, q),
    decreases q.len(),
{
    if q.len() > 0 {
        if p.len() > 0 && q[0] == p[0] {
            lemma_body_set_keeps_paths(
                old.children@[p[0] as int],
                new.children@[p[0] as int],
                p.drop_first(),
                b,
                q.drop_first(),
            );
        } else {
            assert(new.children@[q[0] as int] == old.children@[q[0] as int]);
        }
    }
}

/// Marking for rebuild keeps every path of the tree valid.
pub proof fn lemma_marked_keeps_paths(old: FfsNode, new: FfsNode, p: Seq<usize>, q: Seq<usize>)
    requires
        marked_along(old, new, p),
        path_ok(old, q),
    ensures
        path_ok(new, q),
    decreases q.len(),
{
    if q.len() > 0 {
        if p.len() > 0 && q[0] == p[0] {
            lemma_marked_keeps_paths(
                old.children@[p[0] as int],
                new.children@[p[0] as int],
                p.drop_first(),
                q.drop_first(),
            );
        } else {
            assert(new.children@[q[0] as int] == old.children@[q[0] as int]);
        }
    }
}

} // verus!
