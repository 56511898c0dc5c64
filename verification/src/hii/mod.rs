//! HII (Human Interface Infrastructure) data: IFR form packages, the AMI
//! setup databases that accompany them, and the edits the engine makes.

pub mod nvar;
pub mod opcodes;
pub mod ifr;
pub mod gates;
pub mod ifr_builder;
pub mod ami_patcher;
pub mod package_list;
pub mod ref_variant;
pub mod schema;
pub mod string_ids;
pub mod formset_add;
pub mod spf;
pub mod pe_resource;
pub mod form_hijack;
pub mod form_add;
pub mod form_export;
pub mod unlock;
pub mod visibility;
pub mod at_path;
pub mod cross_formset;

use vstd::prelude::*;
use crate::text::{dec_chars, hex_chars, push_dec_chars, push_hex_chars, string_push_str};
use crate::bytes::{
    bytes_at_eq, copy_range, le16, le32, le64_bytes, read_u16, read_u32, splice_at, u64_bytes, write_at,
};
use crate::hii::ifr_builder::{
    default_op, end_op, one_of_op, one_of_option_op, IfrBuilder, DEFAULT_ID_STANDARD, TYPE_NUM_SIZE_8,
};
use crate::hii::formset_add::option_flags;
use crate::hii::schema::{DefaultClass, QuestionAddDefaults, QuestionAddOption, QuestionAddSchema};
use crate::hii::string_ids::{lookup, StringIds};
use crate::hii::package_list::{lemma_packages_consecutive, parse_package_list, spec_parse_package_list};
use crate::hii::pe_resource::{hii_resource_ranges, spec_hii_resource_ranges};
use crate::hii::ifr::{is_form_package, spec_is_form_package};
use crate::hii::opcodes::PACKAGE_FORMS;
use crate::ffs::{EFI_SECTION_PE32, EFI_SECTION_RAW};
use crate::types::FfsNode;
use crate::hii::spf::{container_start, spec_container_start, SPF_PAGE_COUNT_OFFSET, SPF_PAGE_TABLE_OFFSET};

verus! {

/// Why an HII operation was refused.
#[derive(Debug)]
pub enum HiiError {
    NotFound,
    NotASetupItem,
    InvalidIfr,
    InvalidSchema(String),
    StringPackageNotFound,
    IdOccupied(u16),
    AmiFilesNotFound,
    IfrBuildError(String),
    FfsAssemblyError(String),
    NotWritable,
    MutationBehindCompression,
    PeGrowthUnsupported,
    GateExpressionUnsupported(String),
    ValueOpUnsupported(String),
    NoSuppressScope,
    HidingUnsupported,
}

/// The text that describes an error.
pub open spec fn error_message(e: HiiError) -> Seq<char> {
    match e {
        HiiError::NotFound => "not found"@,
        HiiError::NotASetupItem => "not a setup item"@,
        HiiError::InvalidIfr => "invalid IFR"@,
        HiiError::InvalidSchema(m) => "invalid schema: "@ + m@,
        HiiError::StringPackageNotFound => "string package not found"@,
        HiiError::IdOccupied(id) => "string id "@ + dec_chars(id as nat) + " is already occupied"@,
        HiiError::AmiFilesNotFound => "AMI files not found (setupdataBin/amitseSct)"@,
        HiiError::IfrBuildError(m) => "IFR build error: "@ + m@,
        HiiError::FfsAssemblyError(m) => "FFS assembly error: "@ + m@,
        HiiError::NotWritable => "image is not writable (open in Write mode first)"@,
        HiiError::MutationBehindCompression => "target is behind a compressed/guided section that cannot be recompressed (Tiano, LZMAF86, standard compression, unknown GUID)"@,
        HiiError::PeGrowthUnsupported => "cannot grow PE resource section"@,
        HiiError::GateExpressionUnsupported(m) => "gating expression not reducible to a hardware-validated flip: "@ + m@,
        HiiError::ValueOpUnsupported(m) => "value operation not supported: "@ + m@,
        HiiError::NoSuppressScope => "form has no suppress-if scope of its own; REF-parent gates are the unlock op's domain"@,
        HiiError::HidingUnsupported => "hiding (visible=false) is not implemented: only unsuppress exists"@,
    }
}

impl HiiError {
    /// The text that describes the error.
    pub fn to_string(&self) -> (s: String)
        ensures
            s@ == error_message(*self),
    {
        let mut s = String::new();
        let ghost empty = s@;
        match self {
            HiiError::NotFound => string_push_str(&mut s, "not found"),
            HiiError::NotASetupItem => string_push_str(&mut s, "not a setup item"),
            HiiError::InvalidIfr => string_push_str(&mut s, "invalid IFR"),
            HiiError::InvalidSchema(m) => {
                string_push_str(&mut s, "invalid schema: ");
                string_push_str(&mut s, m.as_str());
            },
            HiiError::StringPackageNotFound => string_push_str(&mut s, "string package not found"),
            HiiError::IdOccupied(id) => {
                string_push_str(&mut s, "string id ");
                push_dec_chars(&mut s, *id as u64);
                string_push_str(&mut s, " is already occupied");
            },
            HiiError::AmiFilesNotFound => string_push_str(
                &mut s,
                "AMI files not found (setupdataBin/amitseSct)",
            ),
            HiiError::IfrBuildError(m) => {
                string_push_str(&mut s, "IFR build error: ");
                string_push_str(&mut s, m.as_str());
            },
            HiiError::FfsAssemblyError(m) => {
                string_push_str(&mut s, "FFS assembly error: ");
                string_push_str(&mut s, m.as_str());
            },
            HiiError::NotWritable => string_push_str(
                &mut s,
                "image is not writable (open in Write mode first)",
            ),
            HiiError::MutationBehindCompression => string_push_str(
                &mut s,
                "target is behind a compressed/guided section that cannot be recompressed (Tiano, LZMAF86, standard compression, unknown GUID)",
            ),
            HiiError::PeGrowthUnsupported => string_push_str(&mut s, "cannot grow PE resource section"),
            HiiError::GateExpressionUnsupported(m) => {
                string_push_str(
                    &mut s,
                    "gating expression not reducible to a hardware-validated flip: ",
                );
                string_push_str(&mut s, m.as_str());
            },
            HiiError::ValueOpUnsupported(m) => {
                string_push_str(&mut s, "value operation not supported: ");
                string_push_str(&mut s, m.as_str());
            },
            HiiError::NoSuppressScope => string_push_str(
                &mut s,
                "form has no suppress-if scope of its own; REF-parent gates are the unlock op's domain",
            ),
            HiiError::HidingUnsupported => string_push_str(
                &mut s,
                "hiding (visible=false) is not implemented: only unsuppress exists",
            ),
        }
        assert(empty =~= Seq::<char>::empty());
        s
    }
}

/// Offset of a page's form id within its `$SPF` page header.
pub const SPF_PAGE_FORM_ID_OFFSET: usize = 0xA;

/// Page-table slot `slot` (relative to the `$SPF` container at `base`)
/// points at a page whose form id is `form_id`.
pub open spec fn slot_registers(b: Seq<u8>, base: int, slot: int, form_id: u16) -> bool {
    let at = base + 0x64 + 4 * slot;
    &&& at + 4 <= b.len()
    &&& le32(b, at) != 0
    &&& base + le32(b, at) + 0xA + 2 <= b.len()
    &&& le16(b, base + le32(b, at) + 0xA) == form_id
}

/// The refusal for a page that is already in the page table.
pub open spec fn page_registered_text(form_id: u16) -> Seq<char> {
    "page "@ + dec_chars(form_id as nat) + " is already registered in the $SPF page table"@
}

/// The refusal for a page table with no free slot after its last entry.
pub open spec fn gap_occupied_text() -> Seq<char> {
    "page table gap occupied"@
}

/// The outcome of looking for a page-table slot for `form_id`: `None` stands
/// for `NotFound`, `Some(Err(text))` for a refused schema, `Some(Ok(slot))`
/// for the free slot right after the `count` registered ones.
pub open spec fn spec_page_registration_slot(b: Seq<u8>, form_id: u16) -> Option<Result<u16, Seq<char>>> {
    match spec_container_start(b) {
        None => None,
        Some(base) => {
            let count_at = base + 0x60;
            if count_at + 4 > b.len() {
                None
            } else {
                let count = le32(b, count_at);
                let gap_at = base + 0x64 + 4 * count;
                if exists|slot: int| 0 <= slot < count && #[trigger] slot_registers(b, base, slot, form_id) {
                    Some(Err(page_registered_text(form_id)))
                } else if gap_at + 4 > b.len() {
                    None
                } else if le32(b, gap_at) != 0 {
                    Some(Err(gap_occupied_text()))
                } else {
                    Some(Ok(count as u16))
                }
            }
        },
    }
}

fn schema_error(text: &str) -> (e: HiiError)
    ensures
        e matches HiiError::InvalidSchema(m) && m@ == text@,
{
    let mut m = String::new();
    let ghost empty = m@;
    string_push_str(&mut m, text);
    assert(empty =~= Seq::<char>::empty());
    assert(m@ =~= text@);
    HiiError::InvalidSchema(m)
}

fn page_registered_error(form_id: u16) -> (e: HiiError)
    ensures
        e matches HiiError::InvalidSchema(m) && m@ == page_registered_text(form_id),
{
    let mut m = String::new();
    let ghost empty = m@;
    string_push_str(&mut m, "page ");
    push_dec_chars(&mut m, form_id as u64);
    string_push_str(&mut m, " is already registered in the $SPF page table");
    assert(empty =~= Seq::<char>::empty());
    assert(m@ =~= page_registered_text(form_id));
    HiiError::InvalidSchema(m)
}

/// The page-table slot a new page `form_id` takes in the `$SPF` body: the
/// slot after the registered ones, provided no registered page already has
/// that form id and the slot is still zero.
pub fn spf_page_registration_slot(body: &[u8], form_id: u16) -> (r: Result<u16, HiiError>)
    ensures
        match spec_page_registration_slot(body@, form_id) {
            None => r matches Err(HiiError::NotFound),
            Some(Err(text)) => r matches Err(HiiError::InvalidSchema(m)) && m@ == text,
            Some(Ok(slot)) => r == Ok::<u16, HiiError>(slot),
        },
{
    let n = body.len();
    let base = match container_start(body) {
        Some(b) => b,
        None => return Err(HiiError::NotFound),
    };
    if base > n || n - base < SPF_PAGE_COUNT_OFFSET + 4 {
        return Err(HiiError::NotFound);
    }
    let count = read_u32(body, base + SPF_PAGE_COUNT_OFFSET);
    let table = base + SPF_PAGE_TABLE_OFFSET;
    let mut slot: u32 = 0;
    while slot < count
        invariant
            n == body@.len(),
            spec_container_start(body@) == Some(base as int),
            base + 0x64 == table,
            table <= n,
            count == le32(body@, base + 0x60),
            slot <= count,
            forall|k: int| 0 <= k < slot ==> !#[trigger] slot_registers(body@, base as int, k, form_id),
        ensures
            forall|k: int| 0 <= k < count ==> !#[trigger] slot_registers(body@, base as int, k, form_id),
        decreases count - slot,
    {
        if (n - table) / 4 <= slot as usize {
            assert forall|k: int| slot <= k < count implies !#[trigger] slot_registers(
                body@,
                base as int,
                k,
                form_id,
            ) by {
                assert(table + 4 * k + 4 > n) by (nonlinear_arith)
                    requires
                        (n - table) / 4 <= slot,
                        slot <= k,
                        table <= n,
                ;
            }
            break;
        }
        let at = table + 4 * (slot as usize);
        let off = read_u32(body, at) as usize;
        if off != 0 && off <= n - base && n - base - off >= 0xA + 2 {
            let fid = read_u16(body, base + off + SPF_PAGE_FORM_ID_OFFSET);
            if fid == form_id {
                assert(slot_registers(body@, base as int, slot as int, form_id));
                return Err(page_registered_error(form_id));
            }
        }
        slot = slot + 1;
    }
    assert(!exists|k: int| 0 <= k < count && #[trigger] slot_registers(body@, base as int, k, form_id));
    if (n - table) / 4 < count as usize || (n - table) - 4 * (count as usize) < 4 {
        assert(table + 4 * count + 4 > n) by (nonlinear_arith)
            requires
                (n - table) / 4 < count || (n - table) - 4 * count < 4,
                table <= n,
        ;
        return Err(HiiError::NotFound);
    }
    if read_u32(body, table + 4 * (count as usize)) != 0 {
        return Err(schema_error("page table gap occupied"));
    }
    Ok(count as u16)
}

/// The string id of an option text: its entry in `ids`, or 0 for every text
/// when no table is given (used to size the opcodes before strings exist).
pub open spec fn option_text_id(ids: Option<Seq<(Seq<char>, u16)>>, t: Seq<char>) -> Option<u16> {
    match ids {
        None => Some(0u16),
        Some(es) => lookup(es, t),
    }
}

/// The ONE_OF_OPTION opcodes of a question's options (one-byte values), or
/// `None` when an option text has no string id.
pub open spec fn question_options_bytes(
    os: Seq<QuestionAddOption>,
    ids: Option<Seq<(Seq<char>, u16)>>,
) -> Option<Seq<u8>>
    decreases os.len(),
{
    if os.len() == 0 {
        Some(seq![])
    } else {
        let o = os.last();
        match (question_options_bytes(os.drop_last(), ids), option_text_id(ids, o.text@)) {
            (Some(prev), Some(id)) => Some(
                prev + one_of_option_op(id, option_flags(o.default), TYPE_NUM_SIZE_8, o.value, 1),
            ),
            _ => None,
        }
    }
}

/// The opcodes of an added question: a one-byte ONE_OF, its options, the
/// standard default when there is one, and the closing END.
pub open spec fn spec_question_ops(
    q: QuestionAddSchema,
    prompt_id: u16,
    help_id: u16,
    ids: Option<Seq<(Seq<char>, u16)>>,
    optimized: Option<u64>,
) -> Option<Seq<u8>> {
    match question_options_bytes(q.options@, ids) {
        Some(ob) => Some(
            one_of_op(prompt_id, help_id, q.question_id, q.var_store_id, q.var_offset, 0, 1) + ob
                + match optimized {
                Some(v) => default_op(DEFAULT_ID_STANDARD, TYPE_NUM_SIZE_8, v, 1),
                None => seq![],
            } + end_op(),
        ),
        None => None,
    }
}

fn option_default_flags(d: &Option<DefaultClass>) -> (f: u8)
    ensures
        f == option_flags(*d),
{
    match d {
        Some(DefaultClass::Optimized) => crate::hii::opcodes::IFR_OPTION_DEFAULT,
        Some(DefaultClass::Failsafe) => crate::hii::opcodes::IFR_OPTION_DEFAULT_MFG,
        None => 0,
    }
}

/// Builds the opcodes of an added question; `InvalidIfr` when an option text
/// has no string id in `ids`.
pub fn build_question_ops(
    q: &QuestionAddSchema,
    prompt_id: u16,
    help_id: u16,
    ids: Option<&StringIds>,
    optimized: Option<u64>,
) -> (r: Result<Vec<u8>, HiiError>)
    ensures
        match spec_question_ops(
            *q,
            prompt_id,
            help_id,
            match ids {
                Some(t) => Some(t@),
                None => None,
            },
            optimized,
        ) {
            Some(ops) => r matches Ok(v) && v@ == ops,
            None => r matches Err(HiiError::InvalidIfr),
        },
{
    let ghost tbl = match ids {
        Some(t) => Some(t@),
        None => None,
    };
    let mut b = IfrBuilder::new();
    b.emit_one_of(prompt_id, help_id, q.question_id, q.var_store_id, q.var_offset, 0, 1);
    let ghost head = b@;
    let mut k: usize = 0;
    while k < q.options.len()
        invariant
            k <= q.options@.len(),
            tbl == (match ids {
                Some(t) => Some(t@),
                None => None::<Seq<(Seq<char>, u16)>>,
            }),
            question_options_bytes(q.options@.subrange(0, k as int), tbl) matches Some(ob) && b@
                == head + ob,
        decreases q.options@.len() - k,
    {
        let o = &q.options[k];
        let text_id = match ids {
            None => 0u16,
            Some(t) => match t.get(o.text.as_str()) {
                Some(id) => id,
                None => {
                    proof {
                        lemma_options_bytes_none(q.options@, k as int, tbl);
                    }
                    return Err(HiiError::InvalidIfr);
                },
            },
        };
        let flags = option_default_flags(&o.default);
        b.emit_one_of_option(text_id, flags, TYPE_NUM_SIZE_8, o.value, 1);
        proof {
            let sub = q.options@.subrange(0, k + 1);
            assert(sub.drop_last() =~= q.options@.subrange(0, k as int));
            assert(sub.last() == q.options@[k as int]);
        }
        k = k + 1;
    }
    assert(q.options@.subrange(0, k as int) =~= q.options@);
    if let Some(v) = optimized {
        b.emit_default(DEFAULT_ID_STANDARD, TYPE_NUM_SIZE_8, v, 1);
    }
    b.emit_end();
    let r = b.build();
    proof {
        let ob = question_options_bytes(q.options@, tbl)->0;
        let d = match optimized {
            Some(v) => default_op(DEFAULT_ID_STANDARD, TYPE_NUM_SIZE_8, v, 1),
            None => seq![],
        };
        assert(r@ =~= one_of_op(prompt_id, help_id, q.question_id, q.var_store_id, q.var_offset, 0, 1) + ob + d
            + end_op());
    }
    Ok(r)
}

proof fn lemma_options_bytes_none(os: Seq<QuestionAddOption>, k: int, ids: Option<Seq<(Seq<char>, u16)>>)
    requires
        0 <= k < os.len(),
        option_text_id(ids, os[k].text@) is None,
    ensures
        question_options_bytes(os, ids) is None,
    decreases os.len(),
{
    if k < os.len() - 1 {
        assert(os.drop_last()[k] == os[k]);
        lemma_options_bytes_none(os.drop_last(), k, ids);
    }
}

/// The FORMS packages among the packages `ps` of a list found at `off`, as
/// `(offset, length)` ranges of the enclosing image.
pub open spec fn forms_ranges(ps: Seq<(u8, int, int)>, off: int) -> Seq<(usize, usize)>
    decreases ps.len(),
{
    if ps.len() == 0 {
        seq![]
    } else {
        let p = ps.last();
        forms_ranges(ps.drop_last(), off) + if p.0 == PACKAGE_FORMS {
            seq![((off + p.1) as usize, p.2 as usize)]
        } else {
            seq![]
        }
    }
}

/// The FORMS packages of the package lists held in the ranges `rs` of `pe`
/// (ranges outside `pe` or not holding a list are skipped).
pub open spec fn resource_forms_from(pe: Seq<u8>, rs: Seq<(usize, usize)>) -> Seq<(usize, usize)>
    decreases rs.len(),
{
    if rs.len() == 0 {
        seq![]
    } else {
        let r = rs.last();
        resource_forms_from(pe, rs.drop_last()) + if r.0 + r.1 <= pe.len() {
            match spec_parse_package_list(pe.subrange(r.0 as int, r.0 + r.1)) {
                Some(ps) => forms_ranges(ps, r.0 as int),
                None => seq![],
            }
        } else {
            seq![]
        }
    }
}

/// The form packages inside the HII resources of a PE image, as ranges of
/// the image; `None` when there is none.
pub open spec fn spec_pe_resource_form_packages(pe: Seq<u8>) -> Option<Seq<(usize, usize)>> {
    let v = resource_forms_from(pe, spec_hii_resource_ranges(pe));
    if v.len() == 0 {
        None
    } else {
        Some(v)
    }
}

fn push_forms_of_list(pe: &[u8], off: usize, len: usize, out: &mut Vec<(usize, usize)>)
    requires
        off + len <= pe@.len(),
        forall|i: int| 0 <= i < old(out)@.len() ==> #[trigger] old(out)@[i].0 + old(out)@[i].1 <= pe@.len(),
    ensures
        final(out)@ == old(out)@ + match spec_parse_package_list(pe@.subrange(off as int, off + len)) {
            Some(ps) => forms_ranges(ps, off as int),
            None => seq![],
        },
        forall|i: int| 0 <= i < final(out)@.len() ==> #[trigger] final(out)@[i].0 + final(out)@[i].1 <= pe@.len(),
{
    let n = pe.len();
    let blob = vstd::slice::slice_subrange(pe, off, off + len);
    let list = match parse_package_list(blob) {
        Some(l) => l,
        None => return,
    };
    let ghost ps = spec_parse_package_list(blob@)->0;
    proof {
        lemma_packages_consecutive(blob@, 20);
    }
    assert(crate::hii::package_list::package_view(list).len() == list.packages@.len());
    let mut start: usize = 20;
    let mut k: usize = 0;
    while k < list.packages.len()
        invariant
            n == pe@.len(),
            list.packages@.len() == ps.len(),
            off + len <= pe@.len(),
            blob@ == pe@.subrange(off as int, off + len),
            spec_parse_package_list(blob@) == Some(ps),
            crate::hii::package_list::package_view(list) == crate::hii::package_list::located(blob@, ps),
            k <= ps.len(),
            k < ps.len() ==> start == ps[k as int].1,
            start <= blob@.len(),
            forall|i: int| 0 <= i < ps.len() ==> 4 <= #[trigger] ps[i].2 && 20 <= ps[i].1 && ps[i].1 + ps[i].2 <= blob@.len(),
            forall|i: int| 0 <= i < ps.len() - 1 ==> #[trigger] ps[i + 1].1 == ps[i].1 + ps[i].2,
            ps.len() > 0 ==> ps[0].1 == 20,
            out@ == old(out)@ + forms_ranges(ps.subrange(0, k as int), off as int),
            forall|i: int| 0 <= i < out@.len() ==> #[trigger] out@[i].0 + out@[i].1 <= pe@.len(),
        decreases list.packages@.len() - k,
    {
        assert(crate::hii::package_list::package_view(list)[k as int] == (
            list.packages@[k as int].kind,
            list.packages@[k as int].bytes@,
        ));
        assert(crate::hii::package_list::located(blob@, ps)[k as int] == (
            ps[k as int].0,
            blob@.subrange(ps[k as int].1, ps[k as int].1 + ps[k as int].2),
        ));
        let p = &list.packages[k];
        let plen = p.bytes.len();
        if p.kind == PACKAGE_FORMS {
            assert(start + plen <= len);
            out.push((off + start, plen));
        }
        proof {
            let sub = ps.subrange(0, k + 1);
            assert(sub.drop_last() =~= ps.subrange(0, k as int));
            assert(sub.last() == ps[k as int]);
            assert(out@ =~= old(out)@ + forms_ranges(sub, off as int));
            if k + 1 < ps.len() {
                let j = k as int;
                assert(ps[j + 1].1 == ps[j].1 + ps[j].2);
            }
        }
        start = start + plen;
        k = k + 1;
    }
    assert(ps.subrange(0, k as int) =~= ps);
}

/// The form packages inside the HII resources of a PE image, as
/// `(offset, length)` ranges of the image; `None` when there is none.
pub fn pe_resource_form_packages(body: &[u8]) -> (r: Option<Vec<(usize, usize)>>)
    ensures
        match r {
            Some(v) => spec_pe_resource_form_packages(body@) == Some(v@),
            None => spec_pe_resource_form_packages(body@) is None,
        },
        r matches Some(v) ==> forall|i: int| 0 <= i < v@.len() ==> #[trigger] v@[i].0 + v@[i].1 <= body@.len(),
{
    let ranges = hii_resource_ranges(body);
    let n = body.len();
    let mut out: Vec<(usize, usize)> = Vec::new();
    let mut k: usize = 0;
    while k < ranges.len()
        invariant
            n == body@.len(),
            k <= ranges@.len(),
            ranges@ == spec_hii_resource_ranges(body@),
            out@ == resource_forms_from(body@, ranges@.subrange(0, k as int)),
            forall|i: int| 0 <= i < out@.len() ==> #[trigger] out@[i].0 + out@[i].1 <= body@.len(),
        decreases ranges@.len() - k,
    {
        let (off, len) = ranges[k];
        if off <= n && len <= n - off {
            push_forms_of_list(body, off, len, &mut out);
        }
        proof {
            let sub = ranges@.subrange(0, k + 1);
            assert(sub.drop_last() =~= ranges@.subrange(0, k as int));
            assert(sub.last() == (off, len));
            assert(out@ =~= resource_forms_from(body@, sub));
        }
        k = k + 1;
    }
    assert(ranges@.subrange(0, k as int) =~= ranges@);
    if out.len() == 0 {
        None
    } else {
        Some(out)
    }
}

/// The form packages of a section as `(offset, length)` ranges of its body:
/// the whole body of a RAW section (or of any section) that is a form
/// package, those inside the HII resources of a PE32 section, else none.
pub open spec fn spec_form_package_ranges(subtype: u8, body: Seq<u8>) -> Seq<(usize, usize)> {
    if subtype == EFI_SECTION_RAW || spec_is_form_package(body) {
        if spec_is_form_package(body) {
            seq![(0usize, body.len() as usize)]
        } else {
            seq![]
        }
    } else if subtype == EFI_SECTION_PE32 {
        match spec_pe_resource_form_packages(body) {
            Some(v) => v,
            None => seq![],
        }
    } else {
        seq![]
    }
}

/// The form packages of a section node, as ranges of its body.
pub fn form_package_ranges(node: &FfsNode) -> (r: Vec<(usize, usize)>)
    ensures
        r@ == spec_form_package_ranges(node.subtype, node.body@),
        forall|i: int| 0 <= i < r@.len() ==> #[trigger] r@[i].0 + r@[i].1 <= node.body@.len(),
{
    section_form_package_ranges(node.subtype, node.body.as_slice())
}

/// The form packages of a section with subtype `subtype` and body `body`.
pub fn section_form_package_ranges(subtype: u8, body: &[u8]) -> (r: Vec<(usize, usize)>)
    ensures
        r@ == spec_form_package_ranges(subtype, body@),
        forall|i: int| 0 <= i < r@.len() ==> #[trigger] r@[i].0 + r@[i].1 <= body@.len(),
{
    if subtype == EFI_SECTION_RAW || is_form_package(body) {
        if is_form_package(body) {
            let mut v: Vec<(usize, usize)> = Vec::new();
            v.push((0, body.len()));
            v
        } else {
            Vec::new()
        }
    } else if subtype == EFI_SECTION_PE32 {
        match pe_resource_form_packages(body) {
            Some(v) => v,
            None => Vec::new(),
        }
    } else {
        Vec::new()
    }
}

/// The options among the first `n` of `opts` that carry default `c`.
pub open spec fn marked_count(opts: Seq<QuestionAddOption>, c: DefaultClass, n: int) -> nat
    decreases n,
{
    if n <= 0 {
        0
    } else {
        marked_count(opts, c, n - 1) + (if opts[n - 1].default == Some(c) {
            1nat
        } else {
            0nat
        })
    }
}

/// The value of the first option at or after `i` that carries default `c`.
pub open spec fn first_marked_from(opts: Seq<QuestionAddOption>, c: DefaultClass, i: int) -> Option<u64>
    decreases opts.len() - i,
{
    if i < 0 || i >= opts.len() {
        None
    } else if opts[i].default == Some(c) {
        Some(opts[i].value)
    } else {
        first_marked_from(opts, c, i + 1)
    }
}

/// The value of the first option at or after `i` that does not fit a byte.
pub open spec fn first_oversized_from(opts: Seq<QuestionAddOption>, i: int) -> Option<u64>
    decreases opts.len() - i,
{
    if i < 0 || i >= opts.len() {
        None
    } else if opts[i].value > 0xff {
        Some(opts[i].value)
    } else {
        first_oversized_from(opts, i + 1)
    }
}

/// Some option has value `v`.
pub open spec fn has_option_value(opts: Seq<QuestionAddOption>, v: u64) -> bool {
    exists|i: int| 0 <= i < opts.len() && #[trigger] opts[i].value == v
}

/// Why a question of `size` bytes is refused.
pub open spec fn size_violation_text(size: u8) -> Seq<char> {
    "size "@ + dec_chars(size as nat) + " violates one_of u8 semantics (must be 1)"@
}

/// Why a question without options is refused.
pub open spec fn empty_options_text() -> Seq<char> {
    "options must not be empty"@
}

/// Why an option value `v` that does not fit a byte is refused.
pub open spec fn oversized_option_text(v: u64) -> Seq<char> {
    "option value 0x"@ + hex_chars(v as nat) + " does not fit one_of u8 semantics"@
}

/// Why two options marked with default `c` are refused.
pub open spec fn duplicate_default_text(c: DefaultClass) -> Seq<char> {
    match c {
        DefaultClass::Optimized => "only one option may carry default \"optimized\""@,
        DefaultClass::Failsafe => "only one option may carry default \"failsafe\""@,
    }
}

/// Why a stated optimized default `d` that differs from the marked option's
/// value `o` is refused.
pub open spec fn default_disagrees_text(d: u64, o: u64) -> Seq<char> {
    "defaults.optimized "@ + dec_chars(d as nat) + " disagrees with the option marked optimized ("@
        + dec_chars(o as nat) + ")"@
}

/// Why an optimized default `v` that no option carries is refused.
pub open spec fn default_not_an_option_text(v: u64) -> Seq<char> {
    "optimized default "@ + dec_chars(v as nat) + " is not among option values"@
}

/// The optimized and failsafe defaults of a one-of question that is to be
/// added, or the reason it is refused: the question is one byte wide, has
/// options, each fits a byte, at most one option is marked per default
/// class, a stated optimized default agrees with the marked option, and the
/// optimized default is one of the option values.
pub open spec fn spec_question_add_defaults(
    size: u8,
    opts: Seq<QuestionAddOption>,
    defaults: Option<QuestionAddDefaults>,
) -> Result<(Option<u64>, Option<u64>), Seq<char>> {
    let marked = first_marked_from(opts, DefaultClass::Optimized, 0);
    let optimized = match marked {
        Some(o) => Some(o),
        None => match defaults {
            Some(d) => Some(d.optimized),
            None => None,
        },
    };
    if size != 1 {
        Err(size_violation_text(size))
    } else if opts.len() == 0 {
        Err(empty_options_text())
    } else if first_oversized_from(opts, 0) is Some {
        Err(oversized_option_text(first_oversized_from(opts, 0)->0))
    } else if marked_count(opts, DefaultClass::Optimized, opts.len() as int) > 1 {
        Err(duplicate_default_text(DefaultClass::Optimized))
    } else if marked_count(opts, DefaultClass::Failsafe, opts.len() as int) > 1 {
        Err(duplicate_default_text(DefaultClass::Failsafe))
    } else if marked is Some && defaults is Some && marked->0 != defaults->0.optimized {
        Err(default_disagrees_text(defaults->0.optimized, marked->0))
    } else if optimized is Some && !has_option_value(opts, optimized->0) {
        Err(default_not_an_option_text(optimized->0))
    } else {
        Ok((optimized, first_marked_from(opts, DefaultClass::Failsafe, 0)))
    }
}

fn is_marked(d: Option<DefaultClass>, c: DefaultClass) -> (r: bool)
    ensures
        r == (d == Some(c)),
{
    match (d, c) {
        (Some(DefaultClass::Optimized), DefaultClass::Optimized) => true,
        (Some(DefaultClass::Failsafe), DefaultClass::Failsafe) => true,
        _ => false,
    }
}

fn count_marked(opts: &Vec<QuestionAddOption>, c: DefaultClass) -> (k: usize)
    ensures
        k == marked_count(opts@, c, opts@.len() as int),
{
    let n = opts.len();
    let mut k: usize = 0;
    let mut i: usize = 0;
    while i < n
        invariant
            n == opts@.len(),
            i <= n,
            k <= i,
            k == marked_count(opts@, c, i as int),
        decreases n - i,
    {
        if is_marked(opts[i].default, c) {
            k = k + 1;
        }
        i = i + 1;
    }
    k
}

fn find_marked(opts: &Vec<QuestionAddOption>, c: DefaultClass) -> (r: Option<u64>)
    ensures
        r == first_marked_from(opts@, c, 0),
{
    let n = opts.len();
    let mut i: usize = 0;
    while i < n
        invariant
            n == opts@.len(),
            i <= n,
            first_marked_from(opts@, c, 0) == first_marked_from(opts@, c, i as int),
        decreases n - i,
    {
        if is_marked(opts[i].default, c) {
            return Some(opts[i].value);
        }
        i = i + 1;
    }
    None
}

fn find_oversized(opts: &Vec<QuestionAddOption>) -> (r: Option<u64>)
    ensures
        r == first_oversized_from(opts@, 0),
{
    let n = opts.len();
    let mut i: usize = 0;
    while i < n
        invariant
            n == opts@.len(),
            i <= n,
            first_oversized_from(opts@, 0) == first_oversized_from(opts@, i as int),
        decreases n - i,
    {
        if opts[i].value > 0xff {
            return Some(opts[i].value);
        }
        i = i + 1;
    }
    None
}

fn any_option_value(opts: &Vec<QuestionAddOption>, v: u64) -> (r: bool)
    ensures
        r == has_option_value(opts@, v),
{
    let n = opts.len();
    let mut i: usize = 0;
    while i < n
        invariant
            n == opts@.len(),
            i <= n,
            forall|j: int| 0 <= j < i ==> #[trigger] opts@[j].value != v,
        decreases n - i,
    {
        if opts[i].value == v {
            assert(opts@[i as int].value == v);
            return true;
        }
        i = i + 1;
    }
    false
}

fn size_violation_error(size: u8) -> (e: HiiError)
    ensures
        e matches HiiError::InvalidSchema(m) && m@ == size_violation_text(size),
{
    let mut m = String::new();
    let ghost empty = m@;
    string_push_str(&mut m, "size ");
    push_dec_chars(&mut m, size as u64);
    string_push_str(&mut m, " violates one_of u8 semantics (must be 1)");
    assert(empty =~= Seq::<char>::empty());
    assert(m@ =~= size_violation_text(size));
    HiiError::InvalidSchema(m)
}

fn oversized_option_error(v: u64) -> (e: HiiError)
    ensures
        e matches HiiError::InvalidSchema(m) && m@ == oversized_option_text(v),
{
    let mut m = String::new();
    let ghost empty = m@;
    string_push_str(&mut m, "option value 0x");
    push_hex_chars(&mut m, v);
    string_push_str(&mut m, " does not fit one_of u8 semantics");
    assert(empty =~= Seq::<char>::empty());
    assert(m@ =~= oversized_option_text(v));
    HiiError::InvalidSchema(m)
}

fn default_disagrees_error(d: u64, o: u64) -> (e: HiiError)
    ensures
        e matches HiiError::InvalidSchema(m) && m@ == default_disagrees_text(d, o),
{
    let mut m = String::new();
    let ghost empty = m@;
    string_push_str(&mut m, "defaults.optimized ");
    push_dec_chars(&mut m, d);
    string_push_str(&mut m, " disagrees with the option marked optimized (");
    push_dec_chars(&mut m, o);
    string_push_str(&mut m, ")");
    assert(empty =~= Seq::<char>::empty());
    assert(m@ =~= default_disagrees_text(d, o));
    HiiError::InvalidSchema(m)
}

fn default_not_an_option_error(v: u64) -> (e: HiiError)
    ensures
        e matches HiiError::InvalidSchema(m) && m@ == default_not_an_option_text(v),
{
    let mut m = String::new();
    let ghost empty = m@;
    string_push_str(&mut m, "optimized default ");
    push_dec_chars(&mut m, v);
    string_push_str(&mut m, " is not among option values");
    assert(empty =~= Seq::<char>::empty());
    assert(m@ =~= default_not_an_option_text(v));
    HiiError::InvalidSchema(m)
}

/// Checks a one-of question that is to be added and gives its optimized and
/// failsafe defaults (`spec_question_add_defaults`).
pub fn validate_question_add(schema: &QuestionAddSchema) -> (r: Result<(Option<u64>, Option<u64>), HiiError>)
    ensures
        match spec_question_add_defaults(schema.size, schema.options@, schema.defaults) {
            Ok(p) => r == Ok::<(Option<u64>, Option<u64>), HiiError>(p),
            Err(text) => r matches Err(HiiError::InvalidSchema(m)) && m@ == text,
        },
{
    if schema.size != 1 {
        return Err(size_violation_error(schema.size));
    }
    if schema.options.len() == 0 {
        return Err(schema_error("options must not be empty"));
    }
    if let Some(v) = find_oversized(&schema.options) {
        return Err(oversized_option_error(v));
    }
    if count_marked(&schema.options, DefaultClass::Optimized) > 1 {
        return Err(schema_error("only one option may carry default \"optimized\""));
    }
    if count_marked(&schema.options, DefaultClass::Failsafe) > 1 {
        return Err(schema_error("only one option may carry default \"failsafe\""));
    }
    let marked = find_marked(&schema.options, DefaultClass::Optimized);
    let optimized = match (marked, schema.defaults) {
        (Some(o), Some(d)) => {
            if o != d.optimized {
                return Err(default_disagrees_error(d.optimized, o));
            }
            Some(o)
        },
        (Some(o), None) => Some(o),
        (None, Some(d)) => Some(d.optimized),
        (None, None) => None,
    };
    if let Some(v) = optimized {
        if !any_option_value(&schema.options, v) {
            return Err(default_not_an_option_error(v));
        }
    }
    let failsafe = find_marked(&schema.options, DefaultClass::Failsafe);
    Ok((optimized, failsafe))
}

/// The `width` low-order bytes of `value`, little-endian.
pub open spec fn value_bytes(value: u64, width: nat) -> Seq<u8> {
    le64_bytes(value).subrange(0, width as int)
}

/// Why a value cannot be written past the end of a store record's data.
pub open spec fn record_out_of_bounds_text() -> Seq<char> {
    "record data out of bounds"@
}

/// Writes `value` into one `StdDefaults` store: the `width` bytes at
/// `var_offset` in the data of the record at `record_offset` take the
/// low-order bytes of `value`. Bytes beyond the body refuse the write;
/// bytes that already hold the value are left alone. On a write, the old and
/// the new bytes are returned.
pub fn set_store_value(
    body: &mut Vec<u8>,
    record_offset: usize,
    var_offset: u16,
    width: u8,
    value: u64,
) -> (r: Result<Option<(Vec<u8>, Vec<u8>)>, HiiError>)
    requires
        width <= 8,
        record_offset + var_offset + width <= usize::MAX,
    ensures
        ({
            let off = record_offset + var_offset;
            let b = old(body)@;
            if off + width > b.len() {
                &&& r matches Err(HiiError::ValueOpUnsupported(m)) && m@ == record_out_of_bounds_text()
                &&& final(body)@ == b
            } else if b.subrange(off, off + width) == value_bytes(value, width as nat) {
                &&& r matches Ok(None)
                &&& final(body)@ == b
            } else {
                &&& r matches Ok(Some((from, to))) && from@ == b.subrange(off, off + width) && to@
                    == value_bytes(value, width as nat)
                &&& final(body)@ == splice_at(b, off, value_bytes(value, width as nat))
            }
        }),
{
    let off = record_offset + var_offset as usize;
    let w = width as usize;
    if off > body.len() || body.len() - off < w {
        return Err(value_error("record data out of bounds"));
    }
    let from = copy_range(body.as_slice(), off, off + w);
    let all = u64_bytes(value);
    let to = copy_range(all.as_slice(), 0, w);
    if bytes_at_eq(body.as_slice(), off, to.as_slice()) {
        return Ok(None);
    }
    write_at(body.as_mut_slice(), off, to.as_slice());
    Ok(Some((from, to)))
}

fn value_error(text: &str) -> (e: HiiError)
    ensures
        e matches HiiError::ValueOpUnsupported(m) && m@ == text@,
{
    let mut m = String::new();
    let ghost empty = m@;
    string_push_str(&mut m, text);
    assert(empty =~= Seq::<char>::empty());
    assert(m@ =~= text@);
    HiiError::ValueOpUnsupported(m)
}

} // verus!
