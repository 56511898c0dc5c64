//! HII data carried by PE32 images: the resources of type "HII" that the
//! `object` crate finds in the resource directory, form packages found by
//! scanning the image body, and growth of a `.rsrc` section that ends the
//! file.

use vstd::prelude::*;
use crate::bytes::{le16, le24, le32, le32_bytes, read_u16, read_u24, read_u32, splice_at, u32_bytes, write_at};
use crate::compress::{zero_padded, pad_zeros};
use crate::hii::ifr::{parse_form_package, spec_parse_form_package};
use crate::hii::opcodes::{IFR_FORM_SET_OP, PACKAGE_FORMS};
use crate::text::string_eq_str;
use object::endian::LittleEndian;
use object::pe::ImageResourceDirectoryEntry;
use object::read::pe::{PeFile32, PeFile64, ResourceDirectory, ResourceDirectoryEntryData};

verus! {

/// Whether `pos` lies inside one of the `(offset, length)` ranges.
pub open spec fn covered_by(ranges: Seq<(usize, usize)>, pos: int) -> bool {
    exists|k: int| 0 <= k < ranges.len() && #[trigger] ranges[k].0 <= pos && pos < ranges[k].0
        + ranges[k].1
}

/// A form package header at `pos`: its UINT24 length, the FORMS kind, a
/// FORM_SET opcode right behind the header, room for the opcode, and the whole
/// package inside the body.
pub open spec fn bare_candidate(pe: Seq<u8>, pos: int) -> bool {
    &&& pos + 5 <= pe.len()
    &&& pe[pos + 3] == PACKAGE_FORMS
    &&& pe[pos + 4] == IFR_FORM_SET_OP
    &&& le24(pe, pos) >= 24
    &&& pos + le24(pe, pos) <= pe.len()
}

/// The form packages found scanning from `pos`: a candidate header is taken
/// whole (and skipped past) when no range covers it and it parses as a form
/// package; any other byte is stepped over.
pub open spec fn bare_from(pe: Seq<u8>, excl: Seq<(usize, usize)>, pos: int) -> Seq<Seq<u8>>
    decreases pe.len() - pos,
{
    if pos < 0 || pos + 5 > pe.len() {
        seq![]
    } else if bare_candidate(pe, pos) {
        let pkg = pe.subrange(pos, pos + le24(pe, pos));
        let rest = bare_from(pe, excl, pos + le24(pe, pos));
        if !covered_by(excl, pos) && spec_parse_form_package(pkg) is Some {
            seq![pkg] + rest
        } else {
            rest
        }
    } else {
        bare_from(pe, excl, pos + 1)
    }
}

fn is_covered(ranges: &[(usize, usize)], pos: usize) -> (r: bool)
    ensures
        r == covered_by(ranges@, pos as int),
{
    let mut k: usize = 0;
    while k < ranges.len()
        invariant
            k <= ranges@.len(),
            forall|m: int|
                0 <= m < k ==> !(ranges@[m].0 <= pos && pos < ranges@[m].0 + ranges@[m].1),
        decreases ranges@.len() - k,
    {
        let (o, l) = ranges[k];
        if o <= pos && pos - o < l {
            assert(ranges@[k as int].0 <= pos && pos < ranges@[k as int].0 + ranges@[k as int].1);
            return true;
        }
        k = k + 1;
    }
    false
}

/// Form packages stored bare in a PE body (outside any resource), skipping
/// those inside the `exclude` ranges: a FORMS package header followed by a
/// FORM_SET opcode, at least 24 bytes long, fully inside the body and parsing
/// as a form package.
pub fn bare_form_packages<'a>(pe: &'a [u8], exclude: &[(usize, usize)]) -> (out: Vec<&'a [u8]>)
    ensures
        out@.map_values(|s: &[u8]| s@) == bare_from(pe@, exclude@, 0),
{
    let mut out: Vec<&'a [u8]> = Vec::new();
    let mut pos: usize = 0;
    let n = pe.len();
    while pos <= n && n - pos >= 5
        invariant
            n == pe@.len(),
            pos <= n,
            out@.map_values(|s: &[u8]| s@) + bare_from(pe@, exclude@, pos as int) == bare_from(
                pe@,
                exclude@,
                0,
            ),
        decreases n - pos,
    {
        let ghost before = out@.map_values(|s: &[u8]| s@);
        let plen = read_u24(pe, pos) as usize;
        if pe[pos + 3] == PACKAGE_FORMS && pe[pos + 4] == IFR_FORM_SET_OP && plen >= 24 && plen
            <= n - pos {
            assert(bare_candidate(pe@, pos as int));
            let pkg = vstd::slice::slice_subrange(pe, pos, pos + plen);
            if !is_covered(exclude, pos) && parse_form_package(pkg).is_some() {
                out.push(pkg);
                assert(out@.map_values(|s: &[u8]| s@) =~= before.push(pkg@));
                assert(seq![pkg@] + bare_from(pe@, exclude@, (pos + plen) as int) =~= seq![
                    pkg@,
                ].add(bare_from(pe@, exclude@, (pos + plen) as int)));
                assert(before + bare_from(pe@, exclude@, pos as int) =~= before.push(pkg@)
                    + bare_from(pe@, exclude@, (pos + plen) as int));
            }
            pos = pos + plen;
        } else {
            pos = pos + 1;
        }
    }
    assert(bare_from(pe@, exclude@, pos as int) =~= seq![]);
    assert(out@.map_values(|s: &[u8]| s@) =~= out@.map_values(|s: &[u8]| s@) + seq![]);
    out
}

/// The layout of a PE image that the `.rsrc` growth reads: the resource data
/// directory's RVA (`None` when the image has no such entry or it is zero),
/// and per section header `(virtual_address, virtual_size, size_of_raw_data,
/// pointer_to_raw_data)`, in table order.
pub struct PeLayout {
    pub resource_rva: Option<u32>,
    pub sections: Vec<(u32, u32, u32, u32)>,
}

impl View for PeLayout {
    type V = (Option<u32>, Seq<(u32, u32, u32, u32)>);

    open spec fn view(&self) -> Self::V {
        (self.resource_rva, self.sections@)
    }
}

/// The layout `object` reads from a PE32+ image; `None` where
/// `PeFile64::parse` refuses the bytes.
pub uninterp spec fn pe64_layout_of(pe: Seq<u8>) -> Option<(Option<u32>, Seq<(u32, u32, u32, u32)>)>;

/// The layout `object` reads from a PE32 image; `None` where `PeFile32::parse`
/// refuses the bytes.
pub uninterp spec fn pe32_layout_of(pe: Seq<u8>) -> Option<(Option<u32>, Seq<(u32, u32, u32, u32)>)>;

/// Parses `pe` with `object::read::pe::PeFile64::parse` and reads the resource
/// data directory (`DataDirectories::get`, `ImageDataDirectory::address_range`)
/// and the section headers (`SectionTable::iter`). The contract only names the
/// result: what `object` accepts and reads is its own.
#[verifier::external_body]
fn pe64_layout(pe: &[u8]) -> (r: Option<PeLayout>)
    ensures
        match r {
            Some(l) => pe64_layout_of(pe@) == Some(l@),
            None => pe64_layout_of(pe@) is None,
        },
{
    let file = PeFile64::parse(pe).ok()?;
    let resource_rva = file.data_directories().get(object::pe::IMAGE_DIRECTORY_ENTRY_RESOURCE)
        .map(|d| d.address_range().0);
    let sections = file.section_table().iter().map(|s| (s.virtual_address.get(LittleEndian),
        s.virtual_size.get(LittleEndian), s.size_of_raw_data.get(LittleEndian),
        s.pointer_to_raw_data.get(LittleEndian))).collect();
    Some(PeLayout { resource_rva, sections })
}

/// As `pe64_layout`, through `object::read::pe::PeFile32::parse`.
#[verifier::external_body]
fn pe32_layout(pe: &[u8]) -> (r: Option<PeLayout>)
    ensures
        match r {
            Some(l) => pe32_layout_of(pe@) == Some(l@),
            None => pe32_layout_of(pe@) is None,
        },
{
    let file = PeFile32::parse(pe).ok()?;
    let resource_rva = file.data_directories().get(object::pe::IMAGE_DIRECTORY_ENTRY_RESOURCE)
        .map(|d| d.address_range().0);
    let sections = file.section_table().iter().map(|s| (s.virtual_address.get(LittleEndian),
        s.virtual_size.get(LittleEndian), s.size_of_raw_data.get(LittleEndian),
        s.pointer_to_raw_data.get(LittleEndian))).collect();
    Some(PeLayout { resource_rva, sections })
}

/// Where and by how much a `.rsrc` section at the end of the file grows: the
/// section header's offset, the optional header's SizeOfImage offset, the old
/// virtual and raw sizes, the padding added to both, and the new SizeOfImage
/// when `.rsrc` is also the last section in memory.
#[derive(Clone, Copy, Debug, PartialEq, Eq, Structural)]
pub struct RsrcGrowPlan {
    pub section_off: usize,
    pub size_of_image_off: usize,
    pub old_virt: u32,
    pub old_raw: u32,
    pub pad: u32,
    pub new_image: Option<u32>,
}

/// Whether `v` is a power of two.
pub open spec fn is_pow2(v: nat) -> bool
    decreases v,
{
    if v <= 1 {
        v == 1
    } else {
        v % 2 == 0 && is_pow2(v / 2)
    }
}

/// `v` when it is a power of two, else 1.
pub open spec fn pow2_or_one(v: u32) -> nat {
    if is_pow2(v as nat) {
        v as nat
    } else {
        1
    }
}

/// `v` rounded up to a multiple of `a`.
pub open spec fn round_up(v: nat, a: nat) -> nat {
    (if v % a == 0 {
        v / a
    } else {
        v / a + 1
    }) * a
}

/// Whether section `s` spans `rva` (from its address, for the larger of its
/// virtual and raw sizes).
pub open spec fn spans(s: (u32, u32, u32, u32), rva: u32) -> bool {
    s.0 <= rva && rva - s.0 < if s.1 >= s.2 {
        s.1
    } else {
        s.2
    }
}

/// The first section from `i` on that spans `rva`.
pub open spec fn first_spanning(secs: Seq<(u32, u32, u32, u32)>, rva: u32, i: int) -> Option<int>
    decreases secs.len() - i,
{
    if i < 0 || i >= secs.len() {
        None
    } else if spans(secs[i], rva) {
        Some(i)
    } else {
        first_spanning(secs, rva, i + 1)
    }
}

proof fn lemma_first_spanning_in_range(secs: Seq<(u32, u32, u32, u32)>, rva: u32, i: int)
    ensures
        first_spanning(secs, rva, i) matches Some(k) ==> i <= k < secs.len() && spans(secs[k], rva),
    decreases secs.len() - i,
{
    if 0 <= i < secs.len() && !spans(secs[i], rva) {
        lemma_first_spanning_in_range(secs, rva, i + 1);
    }
}

/// No section's raw data (when it has any) ends past `end`.
pub open spec fn raws_within(secs: Seq<(u32, u32, u32, u32)>, end: int) -> bool {
    forall|j: int| 0 <= j < secs.len() ==> #[trigger] secs[j].2 == 0 || secs[j].3 + secs[j].2 <= end
}

/// No section starts in memory after `va`.
pub open spec fn none_after(secs: Seq<(u32, u32, u32, u32)>, va: u32) -> bool {
    forall|j: int| 0 <= j < secs.len() ==> #[trigger] secs[j].0 <= va
}

/// The growth plan for `delta` more bytes of `.rsrc`, from the image bytes
/// and the layout `object` read: `None` when the header fields cannot be
/// read, the image has no resource directory, no section spans it, its raw
/// data does not end the file or another section's raw data reaches past it,
/// or a new size or offset does not fit its field.
pub open spec fn spec_rsrc_grow_plan(
    layout: (Option<u32>, Seq<(u32, u32, u32, u32)>),
    pe: Seq<u8>,
    delta: nat,
) -> Option<RsrcGrowPlan> {
    let secs = layout.1;
    if pe.len() < 0x40 {
        None
    } else {
        let pe_off = le32(pe, 0x3c);
        let opt_off = pe_off + 24;
        if opt_off > usize::MAX || pe_off + 22 > pe.len() {
            None
        } else {
            let table_off = opt_off + le16(pe, pe_off + 20);
            match (layout.0, first_spanning(secs, layout.0->0, 0)) {
                (Some(rva), Some(idx)) => {
                    let s = secs[idx];
                    let rsrc_end = s.3 + s.2;
                    let file_align = pow2_or_one(le32(pe, opt_off + 36) as u32);
                    let sa_raw = le32(pe, opt_off + 32) as u32;
                    let section_align = if is_pow2(sa_raw as nat) {
                        sa_raw as nat
                    } else {
                        file_align
                    };
                    let pad = round_up(delta, file_align);
                    let last = none_after(secs, s.0);
                    let end = round_up((s.0 + s.1 + pad) as nat, section_align);
                    if rva == 0 || table_off > usize::MAX || pe.len() != rsrc_end || !raws_within(
                        secs,
                        rsrc_end,
                    ) || opt_off + 40 > pe.len() || s.2 + pad > u32::MAX || s.1 + pad > u32::MAX
                        || (last && end > u32::MAX) || table_off + idx * 40 > usize::MAX || opt_off
                        + 56 > usize::MAX {
                        None
                    } else {
                        Some(
                            RsrcGrowPlan {
                                section_off: (table_off + idx * 40) as usize,
                                size_of_image_off: (opt_off + 56) as usize,
                                old_virt: s.1,
                                old_raw: s.2,
                                pad: pad as u32,
                                new_image: if last {
                                    Some(end as u32)
                                } else {
                                    None
                                },
                            },
                        )
                    }
                },
                _ => None,
            }
        }
    }
}

/// The new sizes of a plan fit their 32-bit fields.
pub open spec fn plan_sizes_fit(p: RsrcGrowPlan) -> bool {
    p.old_virt + p.pad <= u32::MAX && p.old_raw + p.pad <= u32::MAX
}

fn is_pow2_u32(v: u32) -> (r: bool)
    ensures
        r == is_pow2(v as nat),
{
    if v == 0 {
        return false;
    }
    let mut x = v;
    while x > 1
        invariant
            1 <= x,
            is_pow2(x as nat) == is_pow2(v as nat),
        decreases x,
    {
        if x % 2 != 0 {
            return false;
        }
        x = x / 2;
    }
    true
}

/// `v` rounded up to a multiple of `a`, when that fits in 64 bits.
fn round_up_u64(v: u64, a: u64) -> (r: Option<u64>)
    requires
        a > 0,
    ensures
        match r {
            Some(x) => x == round_up(v as nat, a as nat),
            None => round_up(v as nat, a as nat) > u64::MAX,
        },
{
    let q = v / a;
    let c = if v % a == 0 {
        q
    } else {
        assert(q < u64::MAX) by (nonlinear_arith)
            requires
                q == v / a,
                v % a != 0,
                a > 0,
        ;
        q + 1
    };
    c.checked_mul(a)
}

fn spanning_section(secs: &Vec<(u32, u32, u32, u32)>, rva: u32) -> (r: Option<usize>)
    ensures
        match r {
            Some(i) => first_spanning(secs@, rva, 0) == Some(i as int),
            None => first_spanning(secs@, rva, 0) is None,
        },
{
    let mut i: usize = 0;
    while i < secs.len()
        invariant
            i <= secs@.len(),
            first_spanning(secs@, rva, 0) == first_spanning(secs@, rva, i as int),
        decreases secs@.len() - i,
    {
        let (va, vsize, raw, _) = secs[i];
        let span = if vsize >= raw {
            vsize
        } else {
            raw
        };
        if va <= rva && rva - va < span {
            return Some(i);
        }
        i = i + 1;
    }
    None
}

/// Scans the sections once: whether none has raw data past `end`, and
/// whether none starts in memory after `va`.
fn section_bounds(secs: &Vec<(u32, u32, u32, u32)>, end: u64, va: u32) -> (r: (bool, bool))
    ensures
        r.0 == raws_within(secs@, end as int),
        r.0 ==> r.1 == none_after(secs@, va),
{
    let mut last = true;
    let mut i: usize = 0;
    while i < secs.len()
        invariant
            i <= secs@.len(),
            forall|j: int| 0 <= j < i ==> #[trigger] secs@[j].2 == 0 || secs@[j].3 + secs@[j].2 <= end,
            last == (forall|j: int| 0 <= j < i ==> #[trigger] secs@[j].0 <= va),
        decreases secs@.len() - i,
    {
        let (sva, _, raw, ptr) = secs[i];
        if sva > va {
            last = false;
        }
        if raw != 0 && (ptr as u64) + (raw as u64) > end {
            assert(!(secs@[i as int].2 == 0 || secs@[i as int].3 + secs@[i as int].2 <= end));
            return (false, last);
        }
        i = i + 1;
    }
    (true, last)
}

/// Plans growing the `.rsrc` section of `pe` by `delta` bytes rounded up to
/// the file alignment, from the layout `object` read: the section spanning the
/// resource directory must hold the last raw bytes of the file; SizeOfImage is
/// recomputed (rounded to the section alignment) only when that section is
/// also last in memory.
pub fn rsrc_grow_plan(layout: &PeLayout, pe: &[u8], delta: usize) -> (r: Option<RsrcGrowPlan>)
    ensures
        r == spec_rsrc_grow_plan(layout@, pe@, delta as nat),
        r matches Some(p) ==> plan_sizes_fit(p) && p.pad >= delta,
{
    let n = pe.len();
    if n < 0x40 {
        return None;
    }
    let pe_off = read_u32(pe, 0x3c) as usize;
    if pe_off > usize::MAX - 24 || pe_off + 22 > n {
        return None;
    }
    let opt_off = pe_off + 24;
    let opt_size = read_u16(pe, pe_off + 20) as usize;
    if opt_size > usize::MAX - opt_off {
        return None;
    }
    let table_off = opt_off + opt_size;
    let rva = match layout.resource_rva {
        Some(v) => v,
        None => return None,
    };
    if rva == 0 {
        return None;
    }
    let idx = match spanning_section(&layout.sections, rva) {
        Some(i) => i,
        None => return None,
    };
    proof {
        lemma_first_spanning_in_range(layout.sections@, rva, 0);
    }
    let (va, vsize, raw, ptr) = layout.sections[idx];
    let rsrc_end = (ptr as u64) + (raw as u64);
    if n as u64 != rsrc_end {
        return None;
    }
    let (within, last) = section_bounds(&layout.sections, rsrc_end, va);
    if !within {
        return None;
    }
    if opt_off > n || n - opt_off < 40 {
        return None;
    }
    let fa_raw = read_u32(pe, opt_off + 36);
    let file_align: u32 = if is_pow2_u32(fa_raw) {
        fa_raw
    } else {
        1
    };
    let sa_raw = read_u32(pe, opt_off + 32);
    let section_align: u32 = if is_pow2_u32(sa_raw) {
        sa_raw
    } else {
        file_align
    };
    assert(is_pow2(0) == false);
    let pad = match round_up_u64(delta as u64, file_align as u64) {
        Some(p) => p,
        None => return None,
    };
    if pad > (u32::MAX as u64) - (raw as u64) || pad > (u32::MAX as u64) - (vsize as u64) {
        return None;
    }
    let new_virt = (vsize as u64) + pad;
    let new_image = if last {
        let end = match round_up_u64((va as u64) + new_virt, section_align as u64) {
            Some(e) => e,
            None => return None,
        };
        if end > u32::MAX as u64 {
            return None;
        }
        Some(end as u32)
    } else {
        None
    };
    if idx > (usize::MAX - table_off) / 40 || opt_off > usize::MAX - 56 {
        assert(idx > (usize::MAX - table_off) / 40 ==> table_off + idx * 40 > usize::MAX)
            by (nonlinear_arith);
        return None;
    }
    assert(idx * 40 <= usize::MAX - table_off) by (nonlinear_arith)
        requires
            idx <= (usize::MAX - table_off) / 40,
    ;
    assert(pad >= delta) by (nonlinear_arith)
        requires
            pad == round_up(delta as nat, file_align as nat),
            file_align > 0,
    ;
    Some(
        RsrcGrowPlan {
            section_off: table_off + idx * 40,
            size_of_image_off: opt_off + 56,
            old_virt: vsize,
            old_raw: raw,
            pad: pad as u32,
            new_image,
        },
    )
}

/// The image after a plan: zero bytes appended for the padding, the section's
/// VirtualSize (+8) and SizeOfRawData (+16) grown by it, and SizeOfImage
/// rewritten when the plan has one.
pub open spec fn spec_apply_grow(pe: Seq<u8>, p: RsrcGrowPlan) -> Seq<u8> {
    let padded = zero_padded(pe, pe.len() + p.pad);
    let a = splice_at(padded, p.section_off + 8, le32_bytes((p.old_virt + p.pad) as u32));
    let b = splice_at(a, p.section_off + 16, le32_bytes((p.old_raw + p.pad) as u32));
    match p.new_image {
        Some(img) => splice_at(b, p.size_of_image_off as int, le32_bytes(img)),
        None => b,
    }
}

/// The fields a plan rewrites lie inside the grown image.
pub open spec fn plan_fits(len: nat, p: RsrcGrowPlan) -> bool {
    &&& len + p.pad <= usize::MAX
    &&& p.section_off + 20 <= len + p.pad
    &&& p.new_image is Some ==> p.size_of_image_off + 4 <= len + p.pad
}

impl RsrcGrowPlan {
    /// Appends the padding and rewrites the section sizes and SizeOfImage.
    pub fn apply(self, pe: &mut Vec<u8>)
        requires
            plan_sizes_fit(self),
            plan_fits(old(pe)@.len(), self),
        ensures
            final(pe)@ == spec_apply_grow(old(pe)@, self),
    {
        let n = pe.len();
        pad_zeros(pe, n + self.pad as usize);
        let v = u32_bytes(self.old_virt + self.pad);
        write_at(pe.as_mut_slice(), self.section_off + 8, v.as_slice());
        let r = u32_bytes(self.old_raw + self.pad);
        write_at(pe.as_mut_slice(), self.section_off + 16, r.as_slice());
        if let Some(image) = self.new_image {
            let m = u32_bytes(image);
            write_at(pe.as_mut_slice(), self.size_of_image_off, m.as_slice());
        }
    }
}

/// The plan for `delta` more `.rsrc` bytes: from the PE32+ layout when
/// `object` parses the image as PE32+, else from the PE32 layout.
pub open spec fn grow_plan_for(pe: Seq<u8>, delta: nat) -> Option<RsrcGrowPlan> {
    match pe64_layout_of(pe) {
        Some(l) => spec_rsrc_grow_plan(l, pe, delta),
        None => match pe32_layout_of(pe) {
            Some(l) => spec_rsrc_grow_plan(l, pe, delta),
            None => None,
        },
    }
}

/// Grows the `.rsrc` section that ends `pe` so that `delta` more bytes fit,
/// updating its header and SizeOfImage; `true` when it grew (or `delta` is
/// zero), `false` with `pe` untouched when the image does not allow it.
pub fn try_grow_rsrc_tail(pe: &mut Vec<u8>, delta: usize) -> (r: bool)
    ensures
        delta == 0 ==> r && final(pe)@ == old(pe)@,
        delta > 0 ==> (r <==> (grow_plan_for(old(pe)@, delta as nat) matches Some(p) && plan_fits(
            old(pe)@.len(),
            p,
        ))),
        delta > 0 && r ==> final(pe)@ == spec_apply_grow(
            old(pe)@,
            grow_plan_for(old(pe)@, delta as nat)->0,
        ),
        !r ==> final(pe)@ == old(pe)@,
{
    if delta == 0 {
        return true;
    }
    let plan = match pe64_layout(pe.as_slice()) {
        Some(l) => rsrc_grow_plan(&l, pe.as_slice(), delta),
        None => match pe32_layout(pe.as_slice()) {
            Some(l) => rsrc_grow_plan(&l, pe.as_slice(), delta),
            None => None,
        },
    };
    match plan {
        Some(p) => {
            let n = pe.len();
            let pad = p.pad as usize;
            if pad > usize::MAX - n || p.section_off > n + pad || n + pad - p.section_off < 20 {
                return false;
            }
            if p.new_image.is_some() && (p.size_of_image_off > n + pad || n + pad
                - p.size_of_image_off < 4) {
                return false;
            }
            p.apply(pe);
            true
        },
        None => false,
    }
}

/// Growing never gives `.rsrc` less room than asked for, and leaves every
/// byte of the old image but the three rewritten header fields as it was,
/// with zeros after it.
pub proof fn law_grow_keeps_image_and_covers_delta(pe: Seq<u8>, delta: nat)
    requires
        delta > 0,
        grow_plan_for(pe, delta) matches Some(p) && plan_fits(pe.len(), p),
    ensures
        ({
            let p = grow_plan_for(pe, delta)->0;
            let g = spec_apply_grow(pe, p);
            &&& p.pad >= delta
            &&& g.len() == pe.len() + p.pad
            &&& forall|i: int|
                0 <= i < pe.len() && !(p.section_off + 8 <= i < p.section_off + 12) && !(
                p.section_off + 16 <= i < p.section_off + 20) && !(p.new_image is Some
                && p.size_of_image_off <= i < p.size_of_image_off + 4) ==> #[trigger] g[i] == pe[i]
            &&& forall|i: int|
                pe.len() <= i < g.len() && !(p.section_off + 8 <= i < p.section_off + 12) && !(
                p.section_off + 16 <= i < p.section_off + 20) && !(p.new_image is Some
                && p.size_of_image_off <= i < p.size_of_image_off + 4) ==> #[trigger] g[i] == 0
        }),
{
    let p = grow_plan_for(pe, delta)->0;
    lemma_plan_pad_covers(pe, delta);
}

proof fn lemma_plan_pad_covers(pe: Seq<u8>, delta: nat)
    requires
        grow_plan_for(pe, delta) is Some,
    ensures
        grow_plan_for(pe, delta)->0.pad >= delta,
{
    let l = match pe64_layout_of(pe) {
        Some(l) => l,
        None => pe32_layout_of(pe)->0,
    };
    assert(grow_plan_for(pe, delta) == spec_rsrc_grow_plan(l, pe, delta));
    lemma_spec_plan_pad(l, pe, delta);
}

proof fn lemma_spec_plan_pad(layout: (Option<u32>, Seq<(u32, u32, u32, u32)>), pe: Seq<u8>, delta: nat)
    requires
        spec_rsrc_grow_plan(layout, pe, delta) is Some,
    ensures
        spec_rsrc_grow_plan(layout, pe, delta)->0.pad >= delta,
{
    let pe_off = le32(pe, 0x3c);
    let opt_off = pe_off + 24;
    let file_align = pow2_or_one(le32(pe, opt_off + 36) as u32);
    assert(file_align > 0) by {
        assert(is_pow2(0) == false);
    }
    let pad = round_up(delta, file_align);
    assert(pad >= delta) by (nonlinear_arith)
        requires
            pad == round_up(delta, file_align),
            file_align > 0,
    ;
}

/// The bytes of a PE32+ image's resource directory as `object` finds them:
/// `None` where `PeFile64::parse` refuses the image, `Some(None)` where the
/// image has no readable resource directory.
pub uninterp spec fn pe64_rsrc_bytes_of(pe: Seq<u8>) -> Option<Option<Seq<u8>>>;

/// As `pe64_rsrc_bytes_of`, for a PE32 image (`PeFile32::parse`).
pub uninterp spec fn pe32_rsrc_bytes_of(pe: Seq<u8>) -> Option<Option<Seq<u8>>>;

/// File offset and remaining section size of an RVA in a PE32+ image, as
/// `SectionTable::pe_file_range_at` computes them.
pub uninterp spec fn pe64_file_range_at_of(pe: Seq<u8>, rva: u32) -> Option<(u32, u32)>;

/// As `pe64_file_range_at_of`, for a PE32 image.
pub uninterp spec fn pe32_file_range_at_of(pe: Seq<u8>, rva: u32) -> Option<(u32, u32)>;

/// The entries `(name_or_id, offset_to_data_or_directory)` of the root table
/// of a resource directory, as `ResourceDirectory::root` reads them; `None`
/// where it refuses the table.
pub uninterp spec fn rsrc_root_of(rsrc: Seq<u8>) -> Option<Seq<(u32, u32)>>;

/// The name of a resource directory entry as
/// `ResourceName::to_string_lossy` decodes it; `None` for an entry with a
/// numeric id or a name that cannot be read.
pub uninterp spec fn rsrc_entry_name_of(rsrc: Seq<u8>, entry: (u32, u32)) -> Option<Seq<char>>;

/// What a resource directory entry refers to, as
/// `ImageResourceDirectoryEntry::data` reads it.
pub uninterp spec fn rsrc_entry_data_of(rsrc: Seq<u8>, entry: (u32, u32)) -> RsrcDataView;

/// What a resource directory entry refers to: a subtable (its entries), a
/// data entry (RVA and size), or nothing readable.
pub enum RsrcData {
    Table(Vec<(u32, u32)>),
    Data(u32, u32),
    Invalid,
}

pub enum RsrcDataView {
    Table(Seq<(u32, u32)>),
    Data(u32, u32),
    Invalid,
}

impl View for RsrcData {
    type V = RsrcDataView;

    open spec fn view(&self) -> RsrcDataView {
        match self {
            RsrcData::Table(v) => RsrcDataView::Table(v@),
            RsrcData::Data(o, s) => RsrcDataView::Data(*o, *s),
            RsrcData::Invalid => RsrcDataView::Invalid,
        }
    }
}

/// Parses `pe` with `object::read::pe::PeFile64::parse` and copies the bytes
/// its resource data directory refers to (`DataDirectories::get`, then
/// `ImageDataDirectory::data`, the two steps of
/// `DataDirectories::resource_directory`). Only named: what `object`
/// accepts is its own.
#[verifier::external_body]
fn pe64_rsrc_bytes(pe: &[u8]) -> (r: Option<Option<Vec<u8>>>)
    ensures
        match r {
            None => pe64_rsrc_bytes_of(pe@) is None,
            Some(None) => pe64_rsrc_bytes_of(pe@) == Some(None::<Seq<u8>>),
            Some(Some(v)) => pe64_rsrc_bytes_of(pe@) == Some(Some(v@)),
        },
{
    let file = PeFile64::parse(pe).ok()?;
    let Some(dir) = file.data_directories().get(object::pe::IMAGE_DIRECTORY_ENTRY_RESOURCE) else {
        return Some(None);
    };
    Some(dir.data(file.data(), &file.section_table()).ok().map(|d| d.to_vec()))
}

/// As `pe64_rsrc_bytes`, through `object::read::pe::PeFile32::parse`.
#[verifier::external_body]
fn pe32_rsrc_bytes(pe: &[u8]) -> (r: Option<Option<Vec<u8>>>)
    ensures
        match r {
            None => pe32_rsrc_bytes_of(pe@) is None,
            Some(None) => pe32_rsrc_bytes_of(pe@) == Some(None::<Seq<u8>>),
            Some(Some(v)) => pe32_rsrc_bytes_of(pe@) == Some(Some(v@)),
        },
{
    let file = PeFile32::parse(pe).ok()?;
    let Some(dir) = file.data_directories().get(object::pe::IMAGE_DIRECTORY_ENTRY_RESOURCE) else {
        return Some(None);
    };
    Some(dir.data(file.data(), &file.section_table()).ok().map(|d| d.to_vec()))
}

/// Calls `SectionTable::pe_file_range_at` on the sections of `pe` parsed as
/// PE32+: the file offset of `rva` and the section bytes left after it.
#[verifier::external_body]
fn pe64_file_range_at(pe: &[u8], rva: u32) -> (r: Option<(u32, u32)>)
    ensures
        r == pe64_file_range_at_of(pe@, rva),
{
    PeFile64::parse(pe).ok()?.section_table().pe_file_range_at(rva)
}

/// As `pe64_file_range_at`, on `pe` parsed as PE32.
#[verifier::external_body]
fn pe32_file_range_at(pe: &[u8], rva: u32) -> (r: Option<(u32, u32)>)
    ensures
        r == pe32_file_range_at_of(pe@, rva),
{
    PeFile32::parse(pe).ok()?.section_table().pe_file_range_at(rva)
}

/// Calls `ResourceDirectory::root` on the resource directory bytes and
/// returns each entry's two raw fields.
#[verifier::external_body]
fn rsrc_root_entries(rsrc: &[u8]) -> (r: Option<Vec<(u32, u32)>>)
    ensures
        match r {
            Some(v) => rsrc_root_of(rsrc@) == Some(v@),
            None => rsrc_root_of(rsrc@) is None,
        },
{
    let root = ResourceDirectory::new(rsrc).root().ok()?;
    Some(root.entries.iter().map(|e| (e.name_or_id.get(LittleEndian),
        e.offset_to_data_or_directory.get(LittleEndian))).collect())
}

/// Calls `ImageResourceDirectoryEntry::name_or_id` and
/// `ResourceName::to_string_lossy` for the entry with raw fields `entry`.
#[verifier::external_body]
fn rsrc_entry_name(rsrc: &[u8], entry: (u32, u32)) -> (r: Option<String>)
    ensures
        match r {
            Some(s) => rsrc_entry_name_of(rsrc@, entry) == Some(s@),
            None => rsrc_entry_name_of(rsrc@, entry) is None,
        },
{
    let e = ImageResourceDirectoryEntry { name_or_id: object::endian::U32::new(LittleEndian, entry.0),
        offset_to_data_or_directory: object::endian::U32::new(LittleEndian, entry.1) };
    e.name_or_id().name()?.to_string_lossy(ResourceDirectory::new(rsrc)).ok()
}

/// Calls `ImageResourceDirectoryEntry::data` for the entry with raw fields
/// `entry`: the subtable's entries, the data entry's RVA and size, or
/// `Invalid` where `object` cannot read it.
#[verifier::external_body]
fn rsrc_entry_data(rsrc: &[u8], entry: (u32, u32)) -> (r: RsrcData)
    ensures
        r@ == rsrc_entry_data_of(rsrc@, entry),
{
    let e = ImageResourceDirectoryEntry { name_or_id: object::endian::U32::new(LittleEndian, entry.0),
        offset_to_data_or_directory: object::endian::U32::new(LittleEndian, entry.1) };
    match e.data(ResourceDirectory::new(rsrc)) {
        Ok(ResourceDirectoryEntryData::Table(t)) => RsrcData::Table(t.entries.iter().map(|x|
            (x.name_or_id.get(LittleEndian), x.offset_to_data_or_directory.get(LittleEndian))).collect()),
        Ok(ResourceDirectoryEntryData::Data(d)) => RsrcData::Data(d.offset_to_data.get(LittleEndian),
            d.size.get(LittleEndian)),
        Err(_) => RsrcData::Invalid,
    }
}

/// The file range of a resource leaf: where its RVA lies in the file, for
/// its size but no further than its section's bytes.
pub open spec fn leaf_range(at: Option<(u32, u32)>, size: u32) -> Seq<(usize, usize)> {
    match at {
        Some((off, avail)) => seq![(off as usize, (if size < avail { size } else { avail }) as usize)],
        None => seq![],
    }
}

/// The file range of an RVA in `pe`, read as PE32+ when `wide`.
pub open spec fn file_range_at_of(pe: Seq<u8>, wide: bool, rva: u32) -> Option<(u32, u32)> {
    if wide {
        pe64_file_range_at_of(pe, rva)
    } else {
        pe32_file_range_at_of(pe, rva)
    }
}

/// The ranges of the data entries among `es` (the language level).
pub open spec fn lang_leaves(pe: Seq<u8>, rsrc: Seq<u8>, wide: bool, es: Seq<(u32, u32)>) -> Seq<
    (usize, usize),
>
    decreases es.len(),
{
    if es.len() == 0 {
        seq![]
    } else {
        lang_leaves(pe, rsrc, wide, es.drop_last()) + match rsrc_entry_data_of(rsrc, es.last()) {
            RsrcDataView::Data(rva, size) => leaf_range(file_range_at_of(pe, wide, rva), size),
            _ => seq![],
        }
    }
}

/// The ranges under the subtables among `es` (the name level).
pub open spec fn name_leaves(pe: Seq<u8>, rsrc: Seq<u8>, wide: bool, es: Seq<(u32, u32)>) -> Seq<
    (usize, usize),
>
    decreases es.len(),
{
    if es.len() == 0 {
        seq![]
    } else {
        name_leaves(pe, rsrc, wide, es.drop_last()) + match rsrc_entry_data_of(rsrc, es.last()) {
            RsrcDataView::Table(t) => lang_leaves(pe, rsrc, wide, t),
            _ => seq![],
        }
    }
}

/// The ranges under the resource types named "HII" among `es`.
pub open spec fn type_leaves(pe: Seq<u8>, rsrc: Seq<u8>, wide: bool, es: Seq<(u32, u32)>) -> Seq<
    (usize, usize),
>
    decreases es.len(),
{
    if es.len() == 0 {
        seq![]
    } else {
        type_leaves(pe, rsrc, wide, es.drop_last()) + if rsrc_entry_name_of(rsrc, es.last()) == Some(
            "HII"@,
        ) {
            match rsrc_entry_data_of(rsrc, es.last()) {
                RsrcDataView::Table(t) => name_leaves(pe, rsrc, wide, t),
                _ => seq![],
            }
        } else {
            seq![]
        }
    }
}

/// The HII ranges of an image whose resource directory bytes are `found`.
pub open spec fn rsrc_leaves(pe: Seq<u8>, wide: bool, found: Option<Seq<u8>>) -> Seq<(usize, usize)> {
    match found {
        Some(rsrc) => match rsrc_root_of(rsrc) {
            Some(root) => type_leaves(pe, rsrc, wide, root),
            None => seq![],
        },
        None => seq![],
    }
}

/// The file ranges of the resources of type "HII" (every language of every
/// name) in a PE32+ image, else a PE32 image; none for anything else.
pub open spec fn spec_hii_resource_ranges(pe: Seq<u8>) -> Seq<(usize, usize)> {
    match pe64_rsrc_bytes_of(pe) {
        Some(found) => rsrc_leaves(pe, true, found),
        None => match pe32_rsrc_bytes_of(pe) {
            Some(found) => rsrc_leaves(pe, false, found),
            None => seq![],
        },
    }
}

fn push_leaf(pe: &[u8], wide: bool, rva: u32, size: u32, out: &mut Vec<(usize, usize)>)
    ensures
        final(out)@ == old(out)@ + leaf_range(file_range_at_of(pe@, wide, rva), size),
{
    let at = if wide {
        pe64_file_range_at(pe, rva)
    } else {
        pe32_file_range_at(pe, rva)
    };
    match at {
        Some((off, avail)) => {
            let len = if size < avail {
                size
            } else {
                avail
            };
            out.push((off as usize, len as usize));
            assert(out@ =~= old(out)@ + leaf_range(file_range_at_of(pe@, wide, rva), size));
        },
        None => {
            assert(out@ =~= old(out)@ + leaf_range(file_range_at_of(pe@, wide, rva), size));
        },
    }
}

fn push_lang_leaves(pe: &[u8], rsrc: &[u8], wide: bool, es: &Vec<(u32, u32)>, out: &mut Vec<(usize, usize)>)
    ensures
        final(out)@ == old(out)@ + lang_leaves(pe@, rsrc@, wide, es@),
{
    let mut k: usize = 0;
    while k < es.len()
        invariant
            k <= es@.len(),
            out@ == old(out)@ + lang_leaves(pe@, rsrc@, wide, es@.subrange(0, k as int)),
        decreases es@.len() - k,
    {
        let ghost before = out@;
        let e = es[k];
        match rsrc_entry_data(rsrc, e) {
            RsrcData::Data(rva, size) => push_leaf(pe, wide, rva, size, out),
            _ => {},
        }
        proof {
            let sub = es@.subrange(0, k + 1);
            assert(sub.drop_last() =~= es@.subrange(0, k as int));
            assert(sub.last() == e);
            assert(out@ =~= old(out)@ + lang_leaves(pe@, rsrc@, wide, sub));
        }
        k = k + 1;
    }
    assert(es@.subrange(0, k as int) =~= es@);
}

fn push_name_leaves(pe: &[u8], rsrc: &[u8], wide: bool, es: &Vec<(u32, u32)>, out: &mut Vec<(usize, usize)>)
    ensures
        final(out)@ == old(out)@ + name_leaves(pe@, rsrc@, wide, es@),
{
    let mut k: usize = 0;
    while k < es.len()
        invariant
            k <= es@.len(),
            out@ == old(out)@ + name_leaves(pe@, rsrc@, wide, es@.subrange(0, k as int)),
        decreases es@.len() - k,
    {
        let e = es[k];
        match rsrc_entry_data(rsrc, e) {
            RsrcData::Table(t) => push_lang_leaves(pe, rsrc, wide, &t, out),
            _ => {},
        }
        proof {
            let sub = es@.subrange(0, k + 1);
            assert(sub.drop_last() =~= es@.subrange(0, k as int));
            assert(sub.last() == e);
            assert(out@ =~= old(out)@ + name_leaves(pe@, rsrc@, wide, sub));
        }
        k = k + 1;
    }
    assert(es@.subrange(0, k as int) =~= es@);
}

fn hii_entries(pe: &[u8], wide: bool, found: Option<Vec<u8>>) -> (out: Vec<(usize, usize)>)
    ensures
        out@ == rsrc_leaves(
            pe@,
            wide,
            match found {
                Some(v) => Some(v@),
                None => None,
            },
        ),
{
    let mut out: Vec<(usize, usize)> = Vec::new();
    let rsrc = match found {
        Some(v) => v,
        None => return out,
    };
    let root = match rsrc_root_entries(rsrc.as_slice()) {
        Some(r) => r,
        None => return out,
    };
    let mut k: usize = 0;
    while k < root.len()
        invariant
            k <= root@.len(),
            out@ == type_leaves(pe@, rsrc@, wide, root@.subrange(0, k as int)),
        decreases root@.len() - k,
    {
        let e = root[k];
        let ghost before = out@;
        match rsrc_entry_name(rsrc.as_slice(), e) {
            Some(name) => {
                if string_eq_str(&name, "HII") {
                    match rsrc_entry_data(rsrc.as_slice(), e) {
                        RsrcData::Table(t) => push_name_leaves(pe, rsrc.as_slice(), wide, &t, &mut out),
                        _ => {},
                    }
                }
            },
            None => {},
        }
        proof {
            let sub = root@.subrange(0, k + 1);
            assert(sub.drop_last() =~= root@.subrange(0, k as int));
            assert(sub.last() == e);
            assert(out@ =~= type_leaves(pe@, rsrc@, wide, sub));
        }
        k = k + 1;
    }
    assert(root@.subrange(0, k as int) =~= root@);
    out
}

/// File ranges `(offset, length)` of the HII resources of a PE image (type
/// "HII", every name and language), each clamped to the bytes left in its
/// section; none when `object` does not read the bytes as a PE32+ or PE32
/// image with a resource directory.
pub fn hii_resource_ranges(pe: &[u8]) -> (out: Vec<(usize, usize)>)
    ensures
        out@ == spec_hii_resource_ranges(pe@),
{
    match pe64_rsrc_bytes(pe) {
        Some(found) => hii_entries(pe, true, found),
        None => match pe32_rsrc_bytes(pe) {
            Some(found) => hii_entries(pe, false, found),
            None => Vec::new(),
        },
    }
}

/// The bytes of the ranges that lie inside `pe`, in order.
pub open spec fn blobs_of(pe: Seq<u8>, rs: Seq<(usize, usize)>) -> Seq<Seq<u8>>
    decreases rs.len(),
{
    if rs.len() == 0 {
        seq![]
    } else {
        let r = rs.last();
        blobs_of(pe, rs.drop_last()) + if r.0 + r.1 <= pe.len() {
            seq![pe.subrange(r.0 as int, r.0 + r.1)]
        } else {
            seq![]
        }
    }
}

/// The HII resource blobs of a PE image: the bytes of each range of
/// [`hii_resource_ranges`] that lies inside the image.
pub fn hii_resource_blobs(pe: &[u8]) -> (out: Vec<&[u8]>)
    ensures
        out@.map_values(|s: &[u8]| s@) == blobs_of(pe@, spec_hii_resource_ranges(pe@)),
{
    let ranges = hii_resource_ranges(pe);
    let n = pe.len();
    let mut out: Vec<&[u8]> = Vec::new();
    let mut k: usize = 0;
    while k < ranges.len()
        invariant
            n == pe@.len(),
            k <= ranges@.len(),
            ranges@ == spec_hii_resource_ranges(pe@),
            out@.map_values(|s: &[u8]| s@) == blobs_of(pe@, ranges@.subrange(0, k as int)),
        decreases ranges@.len() - k,
    {
        let (off, len) = ranges[k];
        let ghost before = out@.map_values(|s: &[u8]| s@);
        if off <= n && len <= n - off {
            out.push(vstd::slice::slice_subrange(pe, off, off + len));
        }
        proof {
            let sub = ranges@.subrange(0, k + 1);
            assert(sub.drop_last() =~= ranges@.subrange(0, k as int));
            assert(sub.last() == (off, len));
            assert(out@.map_values(|s: &[u8]| s@) =~= blobs_of(pe@, sub));
        }
        k = k + 1;
    }
    assert(ranges@.subrange(0, k as int) =~= ranges@);
    out
}

} // verus!