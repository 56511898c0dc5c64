//! AMI setup registrations: 108-byte question records appended to the
//! `$SPF` setup-data payload, and form ids spliced into the AMITSE PE32
//! payload next to the formset's marker.

use vstd::prelude::*;
use crate::bytes::{le16, le16_bytes, push_all, read_u16, u16_bytes, copy_range};
use crate::ffs::{
    spec_is_recompressable_lzma_guid, EFI_SECTION_COMPRESSION, EFI_SECTION_GUID_DEFINED,
    EFI_SECTION_PE32, EFI_SECTION_UI,
};
use crate::guid::Guid;
use crate::hii::HiiError;
use crate::ops::{
    body_set_at, mark_rebuild_to_root_by_path, marked_along, node_at, path_ok, set_body_at,
    spec_node_at,
};
use crate::text::{eq_ignore_ascii_case, eq_ignore_ascii_case_exec, utf16_text, str_eq, utf16_lossy};
use crate::types::{FfsNode, FfsType, Image, ParsingData};

verus! {

pub const AMI_RECORD_SIZE: usize = 108;
pub const AMI_DEFAULT_ACCESS_LEVEL: u8 = 0x05;
pub const AMI_PAGE_ID_OFFSET: usize = 24;
pub const AMI_ACCESS_LEVEL_OFFSET: usize = 32;
pub const AMI_FAILSAFE_OFFSET: usize = 104;
pub const AMI_OPTIMAL_OFFSET: usize = 106;

/// What the AMI setup data records about one question.
#[derive(Debug, Clone, Copy)]
pub struct QuestionAmiRecord {
    pub question_id: u16,
    pub page_id: Option<u16>,
    pub access_level: u8,
    pub failsafe: u8,
    pub optimal: u8,
}

/// The 108-byte record: question id at 0, page id at 24 (zero when none),
/// access level at 32, fail-safe default at 104, optimal default at 106,
/// zero elsewhere.
pub open spec fn ami_record_bytes(r: QuestionAmiRecord) -> Seq<u8> {
    Seq::new(
        108,
        |i: int|
            if i == 0 {
                (r.question_id % 256) as u8
            } else if i == 1 {
                (r.question_id / 256) as u8
            } else if i == 24 && r.page_id is Some {
                (r.page_id->0 % 256) as u8
            } else if i == 25 && r.page_id is Some {
                (r.page_id->0 / 256) as u8
            } else if i == 32 {
                r.access_level
            } else if i == 104 {
                r.failsafe
            } else if i == 106 {
                r.optimal
            } else {
                0u8
            },
    )
}

pub fn make_ami_record(rec: &QuestionAmiRecord) -> (buf: Vec<u8>)
    ensures
        buf@ == ami_record_bytes(*rec),
{
    let mut buf: Vec<u8> = Vec::new();
    let mut k: usize = 0;
    while k < AMI_RECORD_SIZE
        invariant
            k <= AMI_RECORD_SIZE,
            buf@.len() == k,
            forall|j: int| 0 <= j < k ==> buf@[j] == 0u8,
        decreases AMI_RECORD_SIZE - k,
    {
        buf.push(0u8);
        k = k + 1;
    }
    let q = u16_bytes(rec.question_id);
    buf.set(0, q[0]);
    buf.set(1, q[1]);
    match rec.page_id {
        Some(pid) => {
            let p = u16_bytes(pid);
            buf.set(AMI_PAGE_ID_OFFSET, p[0]);
            buf.set(AMI_PAGE_ID_OFFSET + 1, p[1]);
        },
        None => {},
    }
    buf.set(AMI_ACCESS_LEVEL_OFFSET, rec.access_level);
    buf.set(AMI_FAILSAFE_OFFSET, rec.failsafe);
    buf.set(AMI_OPTIMAL_OFFSET, rec.optimal);
    assert(buf@ =~= ami_record_bytes(*rec));
    buf
}

/// The bytes `$SPF`.
pub open spec fn spf_tag() -> Seq<u8> {
    seq![0x24u8, 0x53u8, 0x50u8, 0x46u8]
}

/// `$SPF` starts at some offset in the first 64 bytes of `b`.
pub open spec fn has_spf_tag_early(b: Seq<u8>) -> bool {
    exists|i: int|
        0 <= i && i + 4 <= (if b.len() < 64 {
            b.len() as int
        } else {
            64
        }) && #[trigger] b.subrange(i, i + 4) == spf_tag()
}

/// Which leaf payload an AMI module is patched in.
#[derive(Debug, Clone, Copy, PartialEq, Eq, Structural)]
pub enum PayloadKind {
    /// The setup-data (`$SPF`) section.
    SetupData,
    /// The AMITSE PE32 image.
    Pe32,
}

/// A leaf section holding `$SPF` in its first 64 bytes (and at least 20 bytes).
pub open spec fn spec_is_pfs_payload(n: FfsNode) -> bool {
    n.node_type == FfsType::Section && n.children@.len() == 0 && n.body@.len() >= 20
        && has_spf_tag_early(n.body@)
}

/// A leaf PE32 section.
pub open spec fn spec_is_pe32_payload(n: FfsNode) -> bool {
    n.node_type == FfsType::Section && n.children@.len() == 0 && n.subtype == EFI_SECTION_PE32
}

pub open spec fn is_payload(n: FfsNode, kind: PayloadKind) -> bool {
    match kind {
        PayloadKind::SetupData => spec_is_pfs_payload(n),
        PayloadKind::Pe32 => spec_is_pe32_payload(n),
    }
}

pub fn is_pfs_payload(node: &FfsNode) -> (r: bool)
    ensures
        r == spec_is_pfs_payload(*node),
{
    if !(node.node_type == FfsType::Section && node.children.len() == 0 && node.body.len() >= 20) {
        return false;
    }
    let n = node.body.len();
    let lim: usize = if n < 64 {
        n
    } else {
        64
    };
    let b = node.body.as_slice();
    let mut i: usize = 0;
    while i <= lim && lim - i >= 4
        invariant
            n == b@.len(),
            b@ == node.body@,
            node.node_type == FfsType::Section,
            node.children@.len() == 0,
            node.body@.len() >= 20,
            lim <= n,
            lim == (if n < 64 {
                n
            } else {
                64
            }),
            forall|j: int| 0 <= j < i ==> #[trigger] b@.subrange(j, j + 4) != spf_tag(),
        decreases lim - i,
    {
        if b[i] == 0x24 && b[i + 1] == 0x53 && b[i + 2] == 0x50 && b[i + 3] == 0x46 {
            assert(b@.subrange(i as int, i + 4) =~= spf_tag());
            assert(has_spf_tag_early(node.body@));
            return true;
        }
        assert(b@.subrange(i as int, i + 4) != spf_tag()) by {
            if b@.subrange(i as int, i + 4) == spf_tag() {
                assert(b@.subrange(i as int, i + 4)[0] == b@[i as int]);
                assert(b@.subrange(i as int, i + 4)[1] == b@[i + 1]);
                assert(b@.subrange(i as int, i + 4)[2] == b@[i + 2]);
                assert(b@.subrange(i as int, i + 4)[3] == b@[i + 3]);
            }
        }
        i = i + 1;
    }
    false
}

pub fn is_pe32_payload(node: &FfsNode) -> (r: bool)
    ensures
        r == spec_is_pe32_payload(*node),
{
    node.node_type == FfsType::Section && node.children.len() == 0 && node.subtype
        == EFI_SECTION_PE32
}

fn is_payload_exec(node: &FfsNode, kind: PayloadKind) -> (r: bool)
    ensures
        r == is_payload(*node, kind),
{
    match kind {
        PayloadKind::SetupData => is_pfs_payload(node),
        PayloadKind::Pe32 => is_pe32_payload(node),
    }
}

/// A compression or GUID-defined section that this library cannot
/// recompress: nothing under it can be edited.
pub open spec fn spec_is_non_recompressable_wrapper(n: FfsNode) -> bool {
    &&& n.node_type == FfsType::Section
    &&& (n.subtype == EFI_SECTION_COMPRESSION || n.subtype == EFI_SECTION_GUID_DEFINED)
    &&& !(n.parsing_data matches ParsingData::GuidedSection(d) && spec_is_recompressable_lzma_guid(
        d.guid@,
    ))
}

pub fn is_non_recompressable_wrapper(node: &FfsNode) -> (r: bool)
    ensures
        r == spec_is_non_recompressable_wrapper(*node),
{
    node.node_type == FfsType::Section && (node.subtype == EFI_SECTION_COMPRESSION || node.subtype
        == EFI_SECTION_GUID_DEFINED) && !crate::builder::recompressable_guid(node)
}

/// Depth-first, in child order, the first payload of `kind` below `n`
/// (relative path); payloads under a wrapper that cannot be recompressed are
/// passed over, and the flag tells whether one was.
pub open spec fn spec_walk(n: FfsNode, kind: PayloadKind, behind: bool) -> (Option<Seq<usize>>, bool)
    decreases n, 1int,
{
    walk_from(n.children@, 0, kind, behind)
}

pub open spec fn walk_from(cs: Seq<FfsNode>, k: int, kind: PayloadKind, behind: bool) -> (
    Option<Seq<usize>>,
    bool,
)
    decreases cs, cs.len() - k,
{
    if k < 0 || k >= cs.len() {
        (None, false)
    } else if is_payload(cs[k], kind) {
        if behind {
            (walk_from(cs, k + 1, kind, behind).0, true)
        } else {
            (Some(seq![k as usize]), false)
        }
    } else {
        let inner = spec_walk(cs[k], kind, behind || spec_is_non_recompressable_wrapper(cs[k]));
        match inner.0 {
            Some(p) => (Some(seq![k as usize] + p), inner.1),
            None => {
                let rest = walk_from(cs, k + 1, kind, behind);
                (rest.0, inner.1 || rest.1)
            },
        }
    }
}

fn walk_for_payload(node: &FfsNode, kind: PayloadKind, behind: bool) -> (r: (Option<Vec<usize>>, bool))
    ensures
        r.1 == spec_walk(*node, kind, behind).1,
        match r.0 {
            Some(p) => spec_walk(*node, kind, behind).0 == Some(p@),
            None => spec_walk(*node, kind, behind).0 is None,
        },
    decreases node, 1int,
{
    let n = node.children.len();
    let mut skipped = false;
    let mut k: usize = 0;
    while k < n
        invariant
            n == node.children@.len(),
            k <= n,
            ({
                let rest = walk_from(node.children@, k as int, kind, behind);
                let all = spec_walk(*node, kind, behind);
                &&& all.0 == rest.0
                &&& all.1 == (skipped || rest.1)
            }),
        decreases n - k,
    {
        let child = &node.children[k];
        if is_payload_exec(child, kind) {
            if behind {
                skipped = true;
                k = k + 1;
                continue;
            }
            let mut p: Vec<usize> = Vec::new();
            p.push(k);
            assert(p@ =~= seq![k]);
            return (Some(p), skipped);
        }
        let wrapper = is_non_recompressable_wrapper(child);
        let (found, s) = walk_for_payload(child, kind, behind || wrapper);
        match found {
            Some(rel) => {
                let mut p: Vec<usize> = Vec::new();
                p.push(k);
                let mut rel2 = rel;
                p.append(&mut rel2);
                assert(p@ =~= seq![k] + rel@);
                return (Some(p), skipped || s);
            },
            None => {},
        }
        skipped = skipped || s;
        k = k + 1;
    }
    (None, skipped)
}

/// The payload path under `file`, or why there is none.
pub open spec fn spec_find_payload_path(file: FfsNode, kind: PayloadKind) -> Result<Seq<usize>, HiiError> {
    let w = spec_walk(file, kind, false);
    match w.0 {
        Some(p) => Ok(p),
        None => if w.1 {
            Err(HiiError::MutationBehindCompression)
        } else {
            Err(HiiError::AmiFilesNotFound)
        },
    }
}

fn find_payload_path(file: &FfsNode, kind: PayloadKind) -> (r: Result<Vec<usize>, HiiError>)
    ensures
        match r {
            Ok(p) => spec_find_payload_path(*file, kind) == Ok::<Seq<usize>, HiiError>(p@),
            Err(e) => spec_find_payload_path(*file, kind) == Err::<Seq<usize>, HiiError>(e),
        },
{
    let (found, skipped) = walk_for_payload(file, kind, false);
    match found {
        Some(p) => Ok(p),
        None => if skipped {
            Err(HiiError::MutationBehindCompression)
        } else {
            Err(HiiError::AmiFilesNotFound)
        },
    }
}

/// UTF-16 code units of a UI section body, up to the first NUL unit (an odd
/// trailing byte is ignored).
pub open spec fn ucs2_units(b: Seq<u8>, k: int) -> Seq<u16>
    decreases b.len() - 2 * k,
{
    if k < 0 || 2 * k + 2 > b.len() || le16(b, 2 * k) == 0 {
        Seq::empty()
    } else {
        seq![le16(b, 2 * k) as u16] + ucs2_units(b, k + 1)
    }
}

proof fn lemma_ucs2_units_step(b: Seq<u8>, k: int, acc: Seq<u16>)
    requires
        0 <= k,
        2 * k + 2 <= b.len(),
        le16(b, 2 * k) != 0,
    ensures
        acc + ucs2_units(b, k) == acc.push(le16(b, 2 * k) as u16) + ucs2_units(b, k + 1),
{
    assert(acc + (seq![le16(b, 2 * k) as u16] + ucs2_units(b, k + 1)) =~= acc.push(
        le16(b, 2 * k) as u16,
    ) + ucs2_units(b, k + 1));
}

/// The name a UI section carries.
pub fn ucs2_body_to_string(body: &[u8]) -> (s: String)
    ensures
        s@ == utf16_text(ucs2_units(body@, 0)),
{
    let n = body.len();
    let mut units: Vec<u16> = Vec::new();
    let mut k: usize = 0;
    let mut done = false;
    while k < n / 2 && !done
        invariant
            n == body@.len(),
            k <= n / 2,
            units@ + ucs2_units(body@, k as int) == ucs2_units(body@, 0),
            done ==> ucs2_units(body@, k as int) == Seq::<u16>::empty(),
        decreases n / 2 - k + (if done {
            0int
        } else {
            1int
        }),
    {
        let u = read_u16(body, 2 * k);
        if u == 0 {
            done = true;
        } else {
            proof {
                lemma_ucs2_units_step(body@, k as int, units@);
            }
            units.push(u);
            k = k + 1;
        }
    }
    assert(ucs2_units(body@, k as int) == Seq::<u16>::empty());
    assert(units@ + Seq::<u16>::empty() =~= units@);
    utf16_lossy(units.as_slice())
}

/// A UI name matches a module hint, ignoring ASCII case; the hint
/// "setupdata" also matches "AMITSESetupData".
pub open spec fn name_matches(n: Seq<char>, hint: Seq<char>) -> bool {
    eq_ignore_ascii_case(n, hint) || (hint == "setupdata"@ && eq_ignore_ascii_case(
        n,
        "AMITSESetupData"@,
    ))
}

pub open spec fn ui_section_named(c: FfsNode, hint: Seq<char>) -> bool {
    c.subtype == EFI_SECTION_UI && name_matches(utf16_text(ucs2_units(c.body@, 0)), hint)
}

/// One of the children is a UI section whose name matches `hint`.
pub open spec fn spec_has_name_section(cs: Seq<FfsNode>, hint: Seq<char>) -> bool {
    exists|i: int| 0 <= i < cs.len() && #[trigger] ui_section_named(cs[i], hint)
}

pub fn has_name_section(children: &Vec<FfsNode>, name: &str) -> (r: bool)
    ensures
        r == spec_has_name_section(children@, name@),
{
    let n = children.len();
    let hint_setupdata = str_eq(name, "setupdata");
    let mut k: usize = 0;
    while k < n
        invariant
            n == children@.len(),
            k <= n,
            hint_setupdata == (name@ == "setupdata"@),
            forall|j: int| 0 <= j < k ==> !#[trigger] ui_section_named(children@[j], name@),
        decreases n - k,
    {
        let c = &children[k];
        if c.subtype == EFI_SECTION_UI {
            let s = ucs2_body_to_string(c.body.as_slice());
            let m = eq_ignore_ascii_case_exec(s.as_str(), name) || (hint_setupdata
                && eq_ignore_ascii_case_exec(s.as_str(), "AMITSESetupData"));
            if m {
                assert(ui_section_named(children@[k as int], name@));
                return true;
            }
        }
        k = k + 1;
    }
    false
}

/// A body made of whole 108-byte records (at least one).
pub open spec fn spec_has_question_id_markers(b: Seq<u8>) -> bool {
    b.len() >= 108 && b.len() % 108 == 0
}

pub fn has_question_id_markers(body: &[u8]) -> (r: bool)
    ensures
        r == spec_has_question_id_markers(body@),
{
    body.len() >= AMI_RECORD_SIZE && body.len() % AMI_RECORD_SIZE == 0
}

/// The GUID asked for, by value.
pub open spec fn opt_guid(guid: Option<&Guid>) -> Option<Guid> {
    match guid {
        Some(g) => Some(*g),
        None => None,
    }
}

/// How a module file is recognised, in order of preference.
pub open spec fn module_test(f: FfsNode, pass: int, guid: Option<Guid>, hint: Seq<char>) -> bool {
    if pass == 0 {
        guid matches Some(g) && f.guid matches Some(fg) && fg@ == g@
    } else if pass == 1 {
        spec_has_name_section(f.children@, hint)
    } else {
        spec_has_question_id_markers(f.body@)
    }
}

/// No file of the first `vi` volumes, nor of volume `vi` before file `fi`,
/// passes `pass`.
pub open spec fn none_before(
    vols: Seq<FfsNode>,
    vi: int,
    fi: int,
    pass: int,
    guid: Option<Guid>,
    hint: Seq<char>,
) -> bool {
    &&& forall|a: int, b: int|
        0 <= a < vi && 0 <= b < vols[a].children@.len() ==> !#[trigger] module_test(
            vols[a].children@[b],
            pass,
            guid,
            hint,
        )
    &&& (0 <= vi < vols.len() ==> forall|b: int|
        0 <= b < fi && b < vols[vi].children@.len() ==> !#[trigger] module_test(
            vols[vi].children@[b],
            pass,
            guid,
            hint,
        ))
}

/// `(vi, fi)` is the first file, volumes in order and files in order, that
/// passes `pass`.
pub open spec fn first_at(
    vols: Seq<FfsNode>,
    vi: int,
    fi: int,
    pass: int,
    guid: Option<Guid>,
    hint: Seq<char>,
) -> bool {
    &&& 0 <= vi < vols.len()
    &&& 0 <= fi < vols[vi].children@.len()
    &&& module_test(vols[vi].children@[fi], pass, guid, hint)
    &&& none_before(vols, vi, fi, pass, guid, hint)
}

/// No file at all passes `pass`.
pub open spec fn none_pass(vols: Seq<FfsNode>, pass: int, guid: Option<Guid>, hint: Seq<char>) -> bool {
    none_before(vols, vols.len() as int, 0, pass, guid, hint)
}

fn module_test_exec(f: &FfsNode, pass: u8, guid: Option<&Guid>, name: &str) -> (r: bool)
    requires
        pass <= 2,
    ensures
        r == module_test(
            *f,
            pass as int,
            opt_guid(guid),
            name@,
        ),
{
    if pass == 0 {
        match (guid, &f.guid) {
            (Some(g), Some(fg)) => *fg == *g,
            _ => false,
        }
    } else if pass == 1 {
        has_name_section(&f.children, name)
    } else {
        has_question_id_markers(f.body.as_slice())
    }
}

fn find_in_pass(image: &Image, guid: Option<&Guid>, name: &str, pass: u8) -> (r: Option<(usize, usize)>)
    requires
        pass <= 2,
    ensures
        ({
            let g = opt_guid(guid);
            match r {
                Some((vi, fi)) => first_at(image.root.children@, vi as int, fi as int, pass as int, g, name@),
                None => none_pass(image.root.children@, pass as int, g, name@),
            }
        }),
{
    let ghost g = opt_guid(guid);
    let ghost vols = image.root.children@;
    let nv = image.root.children.len();
    let mut vi: usize = 0;
    while vi < nv
        invariant
            nv == vols.len(),
            vols == image.root.children@,
            vi <= nv,
            pass <= 2,
            g == (opt_guid(guid)),
            none_before(vols, vi as int, 0, pass as int, g, name@),
        decreases nv - vi,
    {
        let vol = &image.root.children[vi];
        let nf = vol.children.len();
        let mut fi: usize = 0;
        while fi < nf
            invariant
                nv == vols.len(),
                vols == image.root.children@,
                vi < nv,
                *vol == vols[vi as int],
                nf == vol.children@.len(),
                fi <= nf,
                pass <= 2,
                g == (opt_guid(guid)),
                none_before(vols, vi as int, fi as int, pass as int, g, name@),
            decreases nf - fi,
        {
            if module_test_exec(&vol.children[fi], pass, guid, name) {
                return Some((vi, fi));
            }
            fi = fi + 1;
        }
        vi = vi + 1;
    }
    None
}

/// The module file found by GUID, then by UI name, then by a body of whole
/// question records.
pub open spec fn spec_find_ami_module(
    vols: Seq<FfsNode>,
    guid: Option<Guid>,
    hint: Seq<char>,
    r: Result<(usize, usize), HiiError>,
) -> bool {
    match r {
        Ok((vi, fi)) => {
            ||| first_at(vols, vi as int, fi as int, 0, guid, hint)
            ||| (none_pass(vols, 0, guid, hint) && first_at(vols, vi as int, fi as int, 1, guid, hint))
            ||| (none_pass(vols, 0, guid, hint) && none_pass(vols, 1, guid, hint) && first_at(
                vols,
                vi as int,
                fi as int,
                2,
                guid,
                hint,
            ))
        },
        Err(e) => e == HiiError::AmiFilesNotFound && none_pass(vols, 0, guid, hint) && none_pass(
            vols,
            1,
            guid,
            hint,
        ) && none_pass(vols, 2, guid, hint),
    }
}

/// Finds an AMI module file in the image's volumes.
pub fn find_ami_module(image: &Image, guid: Option<&Guid>, name_hint: &str) -> (r: Result<
    (usize, usize),
    HiiError,
>)
    ensures
        spec_find_ami_module(
            image.root.children@,
            opt_guid(guid),
            name_hint@,
            r,
        ),
{
    let mut pass: u8 = 0;
    while pass < 3
        invariant
            pass <= 3,
            forall|p: int|
                0 <= p < pass ==> #[trigger] none_pass(
                    image.root.children@,
                    p,
                    opt_guid(guid),
                    name_hint@,
                ),
        decreases 3 - pass,
    {
        match find_in_pass(image, guid, name_hint, pass) {
            Some(found) => return Ok(found),
            None => {},
        }
        pass = pass + 1;
    }
    Err(HiiError::AmiFilesNotFound)
}


proof fn lemma_first_at_unique(
    vols: Seq<FfsNode>,
    a: int,
    b: int,
    c: int,
    d: int,
    pass: int,
    guid: Option<Guid>,
    hint: Seq<char>,
)
    requires
        first_at(vols, a, b, pass, guid, hint),
        first_at(vols, c, d, pass, guid, hint),
    ensures
        a == c && b == d,
{
    if a < c {
        assert(!module_test(vols[a].children@[b], pass, guid, hint));
    } else if c < a {
        assert(!module_test(vols[c].children@[d], pass, guid, hint));
    } else if b < d {
        assert(!module_test(vols[a].children@[b], pass, guid, hint));
    } else if d < b {
        assert(!module_test(vols[c].children@[d], pass, guid, hint));
    }
}

/// The module file in each recognition pass, when there is one.
pub open spec fn pass_pick(vols: Seq<FfsNode>, pass: int, guid: Option<Guid>, hint: Seq<char>) -> Option<
    (int, int),
> {
    if exists|vi: int, fi: int| #[trigger] first_at(vols, vi, fi, pass, guid, hint) {
        Some(choose|vi: int, fi: int| #[trigger] first_at(vols, vi, fi, pass, guid, hint))
    } else {
        None
    }
}

/// Where the module named `hint` (or carrying `guid`) is: the first file by
/// GUID, else the first by UI name, else the first made of question records.
pub open spec fn spec_module_at(vols: Seq<FfsNode>, guid: Option<Guid>, hint: Seq<char>) -> Option<
    (int, int),
> {
    if pass_pick(vols, 0, guid, hint) is Some {
        pass_pick(vols, 0, guid, hint)
    } else if pass_pick(vols, 1, guid, hint) is Some {
        pass_pick(vols, 1, guid, hint)
    } else {
        pass_pick(vols, 2, guid, hint)
    }
}

proof fn lemma_pass_pick(vols: Seq<FfsNode>, pass: int, guid: Option<Guid>, hint: Seq<char>)
    ensures
        forall|vi: int, fi: int|
            #[trigger] first_at(vols, vi, fi, pass, guid, hint) ==> pass_pick(vols, pass, guid, hint)
                == Some((vi, fi)),
        none_pass(vols, pass, guid, hint) ==> pass_pick(vols, pass, guid, hint) is None,
{
    assert forall|vi: int, fi: int| #[trigger] first_at(vols, vi, fi, pass, guid, hint) implies pass_pick(
        vols,
        pass,
        guid,
        hint,
    ) == Some((vi, fi)) by {
        let (a, b) = choose|a: int, b: int| #[trigger] first_at(vols, a, b, pass, guid, hint);
        lemma_first_at_unique(vols, a, b, vi, fi, pass, guid, hint);
    }
    if none_pass(vols, pass, guid, hint) {
        assert forall|vi: int, fi: int| !#[trigger] first_at(vols, vi, fi, pass, guid, hint) by {
            if first_at(vols, vi, fi, pass, guid, hint) {
                assert(!module_test(vols[vi].children@[fi], pass, guid, hint));
            }
        }
    }
}

/// What `find_ami_module` returns is where the module is.
proof fn lemma_module_at(
    vols: Seq<FfsNode>,
    guid: Option<Guid>,
    hint: Seq<char>,
    r: Result<(usize, usize), HiiError>,
)
    requires
        spec_find_ami_module(vols, guid, hint, r),
    ensures
        match r {
            Ok((vi, fi)) => spec_module_at(vols, guid, hint) == Some((vi as int, fi as int)),
            Err(_) => spec_module_at(vols, guid, hint) is None,
        },
{
    lemma_pass_pick(vols, 0, guid, hint);
    lemma_pass_pick(vols, 1, guid, hint);
    lemma_pass_pick(vols, 2, guid, hint);
}

proof fn lemma_walk_path_ok(n: FfsNode, kind: PayloadKind, behind: bool)
    ensures
        spec_walk(n, kind, behind).0 matches Some(p) ==> path_ok(n, p),
    decreases n, 1int,
{
    lemma_walk_from_path_ok(n, n.children@, 0, kind, behind);
}

proof fn lemma_walk_from_path_ok(n: FfsNode, cs: Seq<FfsNode>, k: int, kind: PayloadKind, behind: bool)
    requires
        cs == n.children@,
    ensures
        walk_from(cs, k, kind, behind).0 matches Some(p) ==> path_ok(n, p),
    decreases cs, cs.len() - k,
{
    assert(n.children.len() == cs.len());
    if 0 <= k < cs.len() {
        if is_payload(cs[k], kind) {
            if behind {
                lemma_walk_from_path_ok(n, cs, k + 1, kind, behind);
            } else {
                assert((k as usize) as int == k);
                assert(seq![k as usize][0] == k as usize);
                assert(seq![k as usize].drop_first() =~= Seq::<usize>::empty());
                assert(path_ok(n.children@[k], Seq::<usize>::empty()));
                assert(path_ok(n, seq![k as usize]));
            }
        } else {
            let b2 = behind || spec_is_non_recompressable_wrapper(cs[k]);
            lemma_walk_path_ok(cs[k], kind, b2);
            match spec_walk(cs[k], kind, b2).0 {
                Some(p) => {
                    assert((k as usize) as int == k);
                    assert((seq![k as usize] + p)[0] == k as usize);
                    assert((seq![k as usize] + p).drop_first() =~= p);
                    assert(path_ok(cs[k], p));
                    assert(path_ok(n, seq![k as usize] + p));
                },
                None => {
                    lemma_walk_from_path_ok(n, cs, k + 1, kind, behind);
                },
            }
        }
    }
}

/// The setup-data and AMITSE payload paths, from the root, or why they
/// cannot be edited.
pub open spec fn spec_resolve(vols: Seq<FfsNode>, sd_guid: Option<Guid>, am_guid: Option<Guid>) -> Result<
    (Seq<usize>, Seq<usize>),
    HiiError,
> {
    match spec_module_at(vols, sd_guid, "setupdata"@) {
        None => Err(HiiError::AmiFilesNotFound),
        Some((svi, sfi)) => match spec_module_at(vols, am_guid, "AMITSE"@) {
            None => Err(HiiError::AmiFilesNotFound),
            Some((avi, afi)) => match spec_find_payload_path(
                vols[svi].children@[sfi],
                PayloadKind::SetupData,
            ) {
                Err(e) => Err(e),
                Ok(sr) => match spec_find_payload_path(vols[avi].children@[afi], PayloadKind::Pe32) {
                    Err(e) => Err(e),
                    Ok(ar) => Ok(
                        (seq![svi as usize, sfi as usize] + sr, seq![avi as usize, afi as usize] + ar),
                    ),
                },
            },
        },
    }
}

proof fn lemma_resolved_paths_ok(root: FfsNode, vi: int, fi: int, rel: Seq<usize>, kind: PayloadKind)
    requires
        0 <= vi < root.children@.len(),
        0 <= fi < root.children@[vi].children@.len(),
        spec_find_payload_path(root.children@[vi].children@[fi], kind) == Ok::<Seq<usize>, HiiError>(
            rel,
        ),
    ensures
        path_ok(root, seq![vi as usize, fi as usize] + rel),
{
    lemma_walk_path_ok(root.children@[vi].children@[fi], kind, false);
    assert(root.children.len() == root.children@.len());
    assert(root.children@[vi].children.len() == root.children@[vi].children@.len());
    let p = seq![vi as usize, fi as usize] + rel;
    assert((vi as usize) as int == vi && (fi as usize) as int == fi);
    assert(p[0] == vi as usize);
    assert(p.drop_first() =~= seq![fi as usize] + rel);
    assert((seq![fi as usize] + rel)[0] == fi as usize);
    assert((seq![fi as usize] + rel).drop_first() =~= rel);
    assert(path_ok(root.children@[vi].children@[fi], rel));
    assert(path_ok(root.children@[vi], seq![fi as usize] + rel));
}

fn resolve_ami_payloads(image: &Image, setupdata_guid: Option<&Guid>, amitse_guid: Option<&Guid>) -> (r:
    Result<(Vec<usize>, Vec<usize>), HiiError>)
    ensures
        match r {
            Ok((sp, ap)) => {
                &&& spec_resolve(image.root.children@, opt_guid(setupdata_guid), opt_guid(amitse_guid))
                    == Ok::<(Seq<usize>, Seq<usize>), HiiError>((sp@, ap@))
                &&& path_ok(image.root, sp@)
                &&& path_ok(image.root, ap@)
            },
            Err(e) => spec_resolve(image.root.children@, opt_guid(setupdata_guid), opt_guid(amitse_guid))
                == Err::<(Seq<usize>, Seq<usize>), HiiError>(e),
        },
{
    let ghost vols = image.root.children@;
    let sd = find_ami_module(image, setupdata_guid, "setupdata");
    proof {
        lemma_module_at(vols, opt_guid(setupdata_guid), "setupdata"@, sd);
    }
    let (sd_vi, sd_fi) = sd?;
    let am = find_ami_module(image, amitse_guid, "AMITSE");
    proof {
        lemma_module_at(vols, opt_guid(amitse_guid), "AMITSE"@, am);
    }
    let (am_vi, am_fi) = am?;
    let sd_rel = find_payload_path(&image.root.children[sd_vi].children[sd_fi], PayloadKind::SetupData)?;
    let am_rel = find_payload_path(&image.root.children[am_vi].children[am_fi], PayloadKind::Pe32)?;
    let mut sd_path: Vec<usize> = Vec::new();
    sd_path.push(sd_vi);
    sd_path.push(sd_fi);
    let mut sr = sd_rel;
    sd_path.append(&mut sr);
    let mut am_path: Vec<usize> = Vec::new();
    am_path.push(am_vi);
    am_path.push(am_fi);
    let mut ar = am_rel;
    am_path.append(&mut ar);
    proof {
        assert(sd_path@ =~= seq![sd_vi, sd_fi] + sd_rel@);
        assert(am_path@ =~= seq![am_vi, am_fi] + am_rel@);
        lemma_resolved_paths_ok(image.root, sd_vi as int, sd_fi as int, sd_rel@, PayloadKind::SetupData);
        lemma_resolved_paths_ok(image.root, am_vi as int, am_fi as int, am_rel@, PayloadKind::Pe32);
    }
    Ok((sd_path, am_path))
}

/// Checks, without editing, that both AMI modules and their payloads can be
/// found and edited.
pub fn precheck_ami_modules(image: &Image, setupdata_guid: Option<&Guid>, amitse_guid: Option<&Guid>) -> (r:
    Result<(), HiiError>)
    ensures
        match r {
            Ok(()) => spec_resolve(image.root.children@, opt_guid(setupdata_guid), opt_guid(amitse_guid)) is Ok,
            Err(e) => spec_resolve(image.root.children@, opt_guid(setupdata_guid), opt_guid(amitse_guid))
                == Err::<(Seq<usize>, Seq<usize>), HiiError>(e),
        },
{
    resolve_ami_payloads(image, setupdata_guid, amitse_guid)?;
    Ok(())
}

/// The first offset from `i` on where the two bytes `marker` occur in `b`.
pub open spec fn marker_from(b: Seq<u8>, marker: Seq<u8>, i: int) -> Option<int>
    decreases b.len() - i,
{
    if i < 0 || i + 2 > b.len() {
        None
    } else if b.subrange(i, i + 2) == marker {
        Some(i)
    } else {
        marker_from(b, marker, i + 1)
    }
}

pub open spec fn marker_position(b: Seq<u8>, marker: Seq<u8>) -> Option<int> {
    marker_from(b, marker, 0)
}

proof fn lemma_marker_from_bounds(b: Seq<u8>, marker: Seq<u8>, i: int)
    ensures
        marker_from(b, marker, i) matches Some(p) ==> i <= p && p + 2 <= b.len(),
    decreases b.len() - i,
{
    if 0 <= i && i + 2 <= b.len() && b.subrange(i, i + 2) != marker {
        lemma_marker_from_bounds(b, marker, i + 1);
    }
}

/// The two marker bytes occur in `b` at `i`.
pub open spec fn marker_at(b: Seq<u8>, marker: Seq<u8>, i: int) -> bool {
    0 <= i && i + 2 <= b.len() && b[i] == marker[0] && b[i + 1] == marker[1]
}

proof fn lemma_marker_from_first(b: Seq<u8>, marker: Seq<u8>, i: int)
    requires
        marker.len() == 2,
        0 <= i,
    ensures
        marker_from(b, marker, i) matches Some(p) ==> i <= p && marker_at(b, marker, p) && forall|j: int|
            i <= j < p ==> !#[trigger] marker_at(b, marker, j),
        marker_from(b, marker, i) is None ==> forall|j: int| i <= j ==> !#[trigger] marker_at(b, marker, j),
    decreases b.len() - i,
{
    if i + 2 <= b.len() {
        if b.subrange(i, i + 2) == marker {
            assert(b.subrange(i, i + 2)[0] == b[i] && b.subrange(i, i + 2)[1] == b[i + 1]);
        } else {
            assert(!marker_at(b, marker, i)) by {
                if marker_at(b, marker, i) {
                    assert(b.subrange(i, i + 2) =~= marker);
                }
            }
            lemma_marker_from_first(b, marker, i + 1);
        }
    }
}

/// The marker position is the first offset, odd or even, where the two
/// marker bytes occur; there is none only when they occur nowhere.
pub proof fn law_marker_is_the_first_occurrence(b: Seq<u8>, marker: Seq<u8>)
    requires
        marker.len() == 2,
    ensures
        marker_position(b, marker) matches Some(p) ==> marker_at(b, marker, p) && forall|j: int|
            0 <= j < p ==> !#[trigger] marker_at(b, marker, j),
        marker_position(b, marker) is None ==> forall|j: int| !#[trigger] marker_at(b, marker, j),
{
    lemma_marker_from_first(b, marker, 0);
}

/// The first two-byte window of `body` equal to `marker`.
pub fn find_formset_marker_position(body: &[u8], marker: &[u8]) -> (r: Option<usize>)
    ensures
        match r {
            Some(i) => marker_position(body@, marker@) == Some(i as int) && i + 2 <= body@.len(),
            None => marker_position(body@, marker@) is None,
        },
        marker@.len() == 2 ==> match r {
            Some(i) => marker_at(body@, marker@, i as int) && forall|j: int|
                0 <= j < i ==> !#[trigger] marker_at(body@, marker@, j),
            None => forall|j: int| !#[trigger] marker_at(body@, marker@, j),
        },
{
    let n = body.len();
    let mut i: usize = 0;
    while i <= n && n - i >= 2
        invariant
            n == body@.len(),
            marker_position(body@, marker@) == marker_from(body@, marker@, i as int),
            marker@.len() == 2 ==> forall|j: int| 0 <= j < i ==> !#[trigger] marker_at(body@, marker@, j),
        decreases n - i,
    {
        if marker.len() == 2 && body[i] == marker[0] && body[i + 1] == marker[1] {
            assert(body@.subrange(i as int, i + 2) =~= marker@);
            return Some(i);
        }
        assert(body@.subrange(i as int, i + 2) != marker@) by {
            if body@.subrange(i as int, i + 2) == marker@ {
                assert(body@.subrange(i as int, i + 2)[0] == body@[i as int]);
                assert(body@.subrange(i as int, i + 2)[1] == body@[i + 1]);
            }
        }
        i = i + 1;
    }
    None
}

/// The records of `qs`, one after another.
pub open spec fn records_bytes(qs: Seq<QuestionAmiRecord>) -> Seq<u8>
    decreases qs.len(),
{
    if qs.len() == 0 {
        Seq::empty()
    } else {
        records_bytes(qs.drop_last()) + ami_record_bytes(qs.last())
    }
}

/// The form ids as little-endian pairs.
pub open spec fn form_id_bytes(ids: Seq<u16>) -> Seq<u8>
    decreases ids.len(),
{
    if ids.len() == 0 {
        Seq::empty()
    } else {
        form_id_bytes(ids.drop_last()) + le16_bytes(ids.last())
    }
}

/// `b` with `entries` inserted at the first occurrence of `marker`, or at
/// its end when the marker does not occur.
pub open spec fn spliced_at_marker(b: Seq<u8>, marker: Seq<u8>, entries: Seq<u8>) -> Seq<u8> {
    let pos = match marker_position(b, marker) {
        Some(i) => i,
        None => b.len() as int,
    };
    b.subrange(0, pos) + entries + b.subrange(pos, b.len() as int)
}

/// The AMITSE marker of a formset: bytes 12 and 13 of its stored GUID.
pub open spec fn formset_marker(g: Guid) -> Seq<u8> {
    g@.subrange(12, 14)
}

/// `new` is `old` after the two registrations: the setup-data payload at
/// `sp` gets the records appended, the AMITSE payload at `ap` gets the form
/// ids spliced at the formset marker, and both paths are marked for
/// rebuilding, in that order.
pub open spec fn ami_patched(
    old: FfsNode,
    new: FfsNode,
    sp: Seq<usize>,
    ap: Seq<usize>,
    records: Seq<u8>,
    entries: Seq<u8>,
    marker: Seq<u8>,
) -> bool {
    exists|t1: FfsNode, t2: FfsNode, t3: FfsNode|
        #![trigger body_set_at(old, t1, sp, spec_node_at(old, sp).body@ + records), marked_along(t1, t2, sp), marked_along(t3, new, ap)]
        body_set_at(old, t1, sp, spec_node_at(old, sp).body@ + records) && marked_along(t1, t2, sp)
            && body_set_at(t2, t3, ap, spliced_at_marker(spec_node_at(t2, ap).body@, marker, entries))
            && marked_along(t3, new, ap)
}

/// Registers a formset with AMI setup: a record per question appended to
/// the setup-data payload, the form ids spliced into the AMITSE payload at
/// the formset marker (or at its end), and both edits marked for rebuilding.
pub fn patch_ami(
    image: &mut Image,
    formset_guid: &Guid,
    form_ids: &[u16],
    questions: &[QuestionAmiRecord],
    setupdata_guid: Option<&Guid>,
    amitse_guid: Option<&Guid>,
) -> (r: Result<(), HiiError>)
    ensures
        final(image).mode == old(image).mode,
        match spec_resolve(old(image).root.children@, opt_guid(setupdata_guid), opt_guid(amitse_guid)) {
            Err(e) => r == Err::<(), HiiError>(e) && final(image).root == old(image).root,
            Ok((sp, ap)) => r is Ok && ami_patched(
                old(image).root,
                final(image).root,
                sp,
                ap,
                records_bytes(questions@),
                form_id_bytes(form_ids@),
                formset_marker(*formset_guid),
            ),
        },
{
    let (sd_path, am_path) = resolve_ami_payloads(image, setupdata_guid, amitse_guid)?;
    let ghost t0 = image.root;
    let mut sd_body = copy_range(node_at(&image.root, sd_path.as_slice()).body.as_slice(), 0, node_at(&image.root, sd_path.as_slice()).body.len());
    let nq = questions.len();
    let mut k: usize = 0;
    while k < nq
        invariant
            nq == questions@.len(),
            k <= nq,
            sd_body@ == spec_node_at(t0, sd_path@).body@ + records_bytes(questions@.subrange(0, k as int)),
        decreases nq - k,
    {
        let rec = make_ami_record(&questions[k]);
        push_all(&mut sd_body, rec.as_slice());
        proof {
            let p = questions@.subrange(0, k + 1);
            assert(p.drop_last() =~= questions@.subrange(0, k as int));
            assert(sd_body@ =~= spec_node_at(t0, sd_path@).body@ + records_bytes(p));
        }
        k = k + 1;
    }
    assert(questions@.subrange(0, nq as int) =~= questions@);
    set_body_at(&mut image.root, sd_path.as_slice(), sd_body);
    let ghost t1 = image.root;
    proof {
        lemma_body_set_keeps_paths_for(t0, t1, sd_path@, am_path@);
        lemma_body_set_keeps_paths_for(t0, t1, sd_path@, sd_path@);
    }
    mark_rebuild_to_root_by_path(&mut image.root, sd_path.as_slice());
    let ghost t2 = image.root;
    proof {
        crate::ops::lemma_marked_keeps_paths(t1, t2, sd_path@, am_path@);
    }
    let gb = formset_guid.to_bytes();
    let mut marker: Vec<u8> = Vec::new();
    marker.push(gb[12]);
    marker.push(gb[13]);
    assert(marker@ =~= formset_marker(*formset_guid));
    let am_old = copy_range(node_at(&image.root, am_path.as_slice()).body.as_slice(), 0, node_at(&image.root, am_path.as_slice()).body.len());
    assert(am_old@ =~= spec_node_at(t2, am_path@).body@);
    let pos = match find_formset_marker_position(am_old.as_slice(), marker.as_slice()) {
        Some(i) => i,
        None => am_old.len(),
    };
    let mut entries: Vec<u8> = Vec::new();
    let nf = form_ids.len();
    let mut k: usize = 0;
    while k < nf
        invariant
            nf == form_ids@.len(),
            k <= nf,
            entries@ == form_id_bytes(form_ids@.subrange(0, k as int)),
        decreases nf - k,
    {
        let b = u16_bytes(form_ids[k]);
        push_all(&mut entries, b.as_slice());
        proof {
            let p = form_ids@.subrange(0, k + 1);
            assert(p.drop_last() =~= form_ids@.subrange(0, k as int));
        }
        k = k + 1;
    }
    assert(form_ids@.subrange(0, nf as int) =~= form_ids@);
    let mut am_body = copy_range(am_old.as_slice(), 0, pos);
    push_all(&mut am_body, entries.as_slice());
    let tail = copy_range(am_old.as_slice(), pos, am_old.len());
    push_all(&mut am_body, tail.as_slice());
    assert(am_body@ =~= spliced_at_marker(spec_node_at(t2, am_path@).body@, formset_marker(*formset_guid), form_id_bytes(form_ids@)));
    set_body_at(&mut image.root, am_path.as_slice(), am_body);
    let ghost t3 = image.root;
    proof {
        lemma_body_set_keeps_paths_for(t2, t3, am_path@, am_path@);
    }
    mark_rebuild_to_root_by_path(&mut image.root, am_path.as_slice());
    assert(ami_patched(t0, image.root, sd_path@, am_path@, records_bytes(questions@), form_id_bytes(form_ids@), formset_marker(*formset_guid)));
    Ok(())
}

proof fn lemma_body_set_keeps_paths_for(old: FfsNode, new: FfsNode, p: Seq<usize>, q: Seq<usize>)
    requires
        exists|b: Seq<u8>| #[trigger] body_set_at(old, new, p, b),
        path_ok(old, q),
    ensures
        path_ok(new, q),
{
    let b = choose|b: Seq<u8>| #[trigger] body_set_at(old, new, p, b);
    crate::ops::lemma_body_set_keeps_paths(old, new, p, b, q);
}

} // verus!
