//! The search for gates in other formsets: the form packages of every
//! section of every file of an image, except the section being edited, are
//! searched for the gates of a target, in the order the tree is walked. The
//! search only reports; it changes nothing.

use vstd::prelude::*;
use crate::ffs::{EFI_SECTION_COMPRESSION, EFI_SECTION_GUID_DEFINED, EFI_SECTION_PE32, EFI_SECTION_RAW};
use crate::guid::Guid;
use crate::hii::gates::{find_gates, spec_find_gates, Gate, GateTarget};
use crate::hii::{form_package_ranges, spec_form_package_ranges};
use crate::types::{FfsNode, FfsType, Image};

verus! {

/// A form package holding gates of the target: the path of its section, the
/// GUID of the file the section belongs to, the package's range in the
/// section body, and the gates found in it.
#[derive(Debug)]
pub struct CrossGateSite {
    pub path: Vec<usize>,
    pub source_ffs: Guid,
    pub pkg_start: usize,
    pub pkg_len: usize,
    pub gates: Vec<Gate>,
}

/// A site as plain values.
pub type SiteView = (Seq<usize>, Guid, usize, usize, Seq<Gate>);

impl View for CrossGateSite {
    type V = SiteView;

    open spec fn view(&self) -> SiteView {
        (self.path@, self.source_ffs, self.pkg_start, self.pkg_len, self.gates@)
    }
}

/// The sites among the first `k` package ranges `rs` of section `sec`.
pub open spec fn range_sites(
    sec: FfsNode,
    path: Seq<usize>,
    g: Guid,
    t: GateTarget,
    rs: Seq<(usize, usize)>,
    k: int,
) -> Seq<SiteView>
    decreases k,
{
    if k <= 0 {
        seq![]
    } else {
        let r = rs[k - 1];
        let gs = spec_find_gates(sec.body@.subrange(r.0 as int, r.0 + r.1), t);
        range_sites(sec, path, g, t, rs, k - 1) + if gs.len() == 0 {
            seq![]
        } else {
            seq![(path, g, r.0, r.1, gs)]
        }
    }
}

/// The sites of section `sec` at `path` (none when it is the skipped one).
pub open spec fn scan_sites(sec: FfsNode, path: Seq<usize>, g: Guid, skip: Seq<usize>, t: GateTarget) -> Seq<
    SiteView,
> {
    if path == skip {
        seq![]
    } else {
        let rs = spec_form_package_ranges(sec.subtype, sec.body@);
        range_sites(sec, path, g, t, rs, rs.len() as int)
    }
}

/// The sites below a node of a file at `path`: a raw or PE32 section is
/// searched, a compression or GUID-defined section is walked into, other
/// nodes hold none.
pub open spec fn section_node_sites(n: FfsNode, path: Seq<usize>, g: Guid, skip: Seq<usize>, t: GateTarget) -> Seq<
    SiteView,
>
    decreases n, 1int,
{
    if n.node_type != FfsType::Section {
        seq![]
    } else if n.subtype == EFI_SECTION_RAW || n.subtype == EFI_SECTION_PE32 {
        scan_sites(n, path, g, skip, t)
    } else if n.subtype == EFI_SECTION_COMPRESSION || n.subtype == EFI_SECTION_GUID_DEFINED {
        sections_fold(n.children@, path, g, skip, t, n.children@.len() as int)
    } else {
        seq![]
    }
}

/// The sites below the first `k` of the nodes `cs`, children of the node at
/// `path`.
pub open spec fn sections_fold(
    cs: Seq<FfsNode>,
    path: Seq<usize>,
    g: Guid,
    skip: Seq<usize>,
    t: GateTarget,
    k: int,
) -> Seq<SiteView>
    decreases cs, k,
{
    if k <= 0 || k > cs.len() {
        seq![]
    } else {
        sections_fold(cs, path, g, skip, t, k - 1) + section_node_sites(
            cs[k - 1],
            path.push((k - 1) as usize),
            g,
            skip,
            t,
        )
    }
}

/// The sites found from a node at `path` of the tree: a file with a GUID
/// has its sections searched, then the walk goes on below the node.
pub open spec fn file_node_sites(n: FfsNode, path: Seq<usize>, skip: Seq<usize>, t: GateTarget) -> Seq<
    SiteView,
>
    decreases n, 1int,
{
    (if n.node_type == FfsType::File && n.guid is Some {
        sections_fold(n.children@, path, n.guid->0, skip, t, n.children@.len() as int)
    } else {
        seq![]
    }) + files_fold(n.children@, path, skip, t, n.children@.len() as int)
}

/// The sites found below the first `k` of the nodes `cs`, children of the
/// node at `path`.
pub open spec fn files_fold(cs: Seq<FfsNode>, path: Seq<usize>, skip: Seq<usize>, t: GateTarget, k: int) -> Seq<
    SiteView,
>
    decreases cs, k,
{
    if k <= 0 || k > cs.len() {
        seq![]
    } else {
        files_fold(cs, path, skip, t, k - 1) + file_node_sites(cs[k - 1], path.push((k - 1) as usize), skip, t)
    }
}

/// Where gates of `t` stand in the image below `root`, in tree order, with
/// the section at `skip` left out.
pub open spec fn spec_cross_gates(root: FfsNode, skip: Seq<usize>, t: GateTarget) -> Seq<SiteView> {
    files_fold(root.children@, seq![], skip, t, root.children@.len() as int)
}

fn path_eq(a: &Vec<usize>, b: &[usize]) -> (r: bool)
    ensures
        r == (a@ == b@),
{
    if a.len() != b.len() {
        return false;
    }
    let mut i: usize = 0;
    while i < a.len()
        invariant
            a@.len() == b@.len(),
            i <= a@.len(),
            forall|j: int| 0 <= j < i ==> a@[j] == b@[j],
        decreases a@.len() - i,
    {
        if a[i] != b[i] {
            return false;
        }
        i = i + 1;
    }
    assert(a@ =~= b@);
    true
}

fn copy_path(p: &Vec<usize>) -> (r: Vec<usize>)
    ensures
        r@ == p@,
{
    let mut r: Vec<usize> = Vec::new();
    let mut i: usize = 0;
    while i < p.len()
        invariant
            i <= p@.len(),
            r@ == p@.subrange(0, i as int),
        decreases p@.len() - i,
    {
        r.push(p[i]);
        i = i + 1;
    }
    assert(r@ =~= p@);
    r
}

/// The views of `v`, in order.
pub open spec fn views(v: Seq<CrossGateSite>) -> Seq<SiteView> {
    v.map_values(|s: CrossGateSite| s@)
}

fn scan_section(
    sec: &FfsNode,
    path: &Vec<usize>,
    g: Guid,
    skip: &[usize],
    t: &GateTarget,
    out: &mut Vec<CrossGateSite>,
)
    ensures
        views(final(out)@) == views(old(out)@) + scan_sites(*sec, path@, g, skip@, *t),
{
    if path_eq(path, skip) {
        assert(views(out@) =~= views(old(out)@) + Seq::<SiteView>::empty());
        return;
    }
    let rs = form_package_ranges(sec);
    let mut k: usize = 0;
    while k < rs.len()
        invariant
            rs@ == spec_form_package_ranges(sec.subtype, sec.body@),
            forall|i: int| 0 <= i < rs@.len() ==> #[trigger] rs@[i].0 + rs@[i].1 <= sec.body@.len(),
            k <= rs@.len(),
            views(out@) == views(old(out)@) + range_sites(*sec, path@, g, *t, rs@, k as int),
        decreases rs@.len() - k,
    {
        let start = rs[k].0;
        let len = rs[k].1;
        assert(rs@[k as int].0 + rs@[k as int].1 <= sec.body@.len());
        let blen = sec.body.len();
        assert(start + len <= blen);
        let pkg = vstd::slice::slice_subrange(sec.body.as_slice(), start, start + len);
        let found = find_gates(pkg, t);
        let ghost before = out@;
        if found.len() > 0 {
            out.push(CrossGateSite { path: copy_path(path), source_ffs: g, pkg_start: start, pkg_len: len, gates: found });
            assert(views(out@) =~= views(before).push(out@.last()@));
        } else {
            assert(views(out@) =~= views(before) + Seq::<SiteView>::empty());
        }
        k = k + 1;
        assert(views(out@) =~= views(old(out)@) + range_sites(*sec, path@, g, *t, rs@, k as int));
    }
}

fn walk_section_node(
    n: &FfsNode,
    path: &mut Vec<usize>,
    g: Guid,
    skip: &[usize],
    t: &GateTarget,
    out: &mut Vec<CrossGateSite>,
)
    ensures
        final(path)@ == old(path)@,
        views(final(out)@) == views(old(out)@) + section_node_sites(*n, old(path)@, g, skip@, *t),
    decreases n, 1int,
{
    if n.node_type != FfsType::Section {
        assert(views(out@) =~= views(old(out)@) + Seq::<SiteView>::empty());
    } else if n.subtype == EFI_SECTION_RAW || n.subtype == EFI_SECTION_PE32 {
        scan_section(n, path, g, skip, t, out);
    } else if n.subtype == EFI_SECTION_COMPRESSION || n.subtype == EFI_SECTION_GUID_DEFINED {
        walk_sections(n, path, g, skip, t, out);
    } else {
        assert(views(out@) =~= views(old(out)@) + Seq::<SiteView>::empty());
    }
}

fn walk_sections(
    n: &FfsNode,
    path: &mut Vec<usize>,
    g: Guid,
    skip: &[usize],
    t: &GateTarget,
    out: &mut Vec<CrossGateSite>,
)
    ensures
        final(path)@ == old(path)@,
        views(final(out)@) == views(old(out)@) + sections_fold(
            n.children@,
            old(path)@,
            g,
            skip@,
            *t,
            n.children@.len() as int,
        ),
    decreases n, 0int,
{
    let ghost p0 = path@;
    let mut i: usize = 0;
    while i < n.children.len()
        invariant
            i <= n.children@.len(),
            path@ == p0,
            p0 == old(path)@,
            views(out@) == views(old(out)@) + sections_fold(n.children@, p0, g, skip@, *t, i as int),
        decreases n.children@.len() - i,
    {
        path.push(i);
        walk_section_node(&n.children[i], path, g, skip, t, out);
        path.pop();
        assert(path@ =~= p0);
        i = i + 1;
        assert(views(out@) =~= views(old(out)@) + sections_fold(n.children@, p0, g, skip@, *t, i as int));
    }
}

fn walk_file_node(
    n: &FfsNode,
    path: &mut Vec<usize>,
    skip: &[usize],
    t: &GateTarget,
    out: &mut Vec<CrossGateSite>,
)
    ensures
        final(path)@ == old(path)@,
        views(final(out)@) == views(old(out)@) + file_node_sites(*n, old(path)@, skip@, *t),
    decreases n, 1int,
{
    if n.node_type == FfsType::File {
        match n.guid {
            Some(g) => walk_sections(n, path, g, skip, t, out),
            None => {},
        }
    }
    walk_files(n, path, skip, t, out);
    assert(views(out@) =~= views(old(out)@) + file_node_sites(*n, old(path)@, skip@, *t));
}

fn walk_files(
    n: &FfsNode,
    path: &mut Vec<usize>,
    skip: &[usize],
    t: &GateTarget,
    out: &mut Vec<CrossGateSite>,
)
    ensures
        final(path)@ == old(path)@,
        views(final(out)@) == views(old(out)@) + files_fold(
            n.children@,
            old(path)@,
            skip@,
            *t,
            n.children@.len() as int,
        ),
    decreases n, 0int,
{
    let ghost p0 = path@;
    let mut i: usize = 0;
    while i < n.children.len()
        invariant
            i <= n.children@.len(),
            path@ == p0,
            p0 == old(path)@,
            views(out@) == views(old(out)@) + files_fold(n.children@, p0, skip@, *t, i as int),
        decreases n.children@.len() - i,
    {
        path.push(i);
        walk_file_node(&n.children[i], path, skip, t, out);
        path.pop();
        assert(path@ =~= p0);
        i = i + 1;
        assert(views(out@) =~= views(old(out)@) + files_fold(n.children@, p0, skip@, *t, i as int));
    }
}

/// Where gates of `t` stand in the form packages of every section of every
/// file of the image, in the order the tree is walked, the section at
/// `skip_path` left out (`spec_cross_gates`). Nothing is changed.
pub fn find_cross_gates(image: &Image, skip_path: &[usize], gt: &GateTarget) -> (r: Vec<CrossGateSite>)
    ensures
        views(r@) == spec_cross_gates(image.root, skip_path@, *gt),
{
    let mut out: Vec<CrossGateSite> = Vec::new();
    let mut path: Vec<usize> = Vec::new();
    walk_files(&image.root, &mut path, skip_path, gt, &mut out);
    assert(views(Seq::<CrossGateSite>::empty()) =~= Seq::<SiteView>::empty());
    assert(path@ =~= Seq::<usize>::empty());
    out
}

} // verus!
