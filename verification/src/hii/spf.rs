//! The AMI `$SPF` setup database: 72-byte question records (question id,
//! IFR offset, failsafe/optimal defaults), 12-byte string controls and the
//! page table, all addressed relative to the `$SPF` container signature.

use vstd::prelude::*;
use crate::bytes::{
    le16, le32, le16_bytes, le32_bytes, splice_at, occurs_at, read_u16, read_u32, u16_bytes,
    u32_bytes, push_all, copy_range, write_at, bytes_at_eq,
};

verus! {

pub const SPF_RECORD_SIZE: usize = 72;
pub const SPF_RECORD_IFR_OFFSET: usize = 28;
pub const SPF_RECORD_FAILSAFE: usize = 52;
pub const SPF_RECORD_OPTIMAL: usize = 53;
pub const SPF_RECORD_HELP_ID: usize = 0x14;
pub const SPF_RECORD_COUNTER_OFFSET: usize = 0x18;
pub const SPF_RECORD_PROMPT_ID_OFFSET: usize = 0x30;

pub const SPF_CONTAINER_BASE: usize = 0x10;
pub const SPF_HEADER_REGION_OFFSETS: usize = 0x30;
pub const SPF_PAGE_COUNT_OFFSET: usize = 0x60;
pub const SPF_PAGE_TABLE_OFFSET: usize = 0x64;
pub const SPF_PAGE_HEADER_SIZE: usize = 0x20;
pub const SPF_PAGE_CNT_OFFSET: usize = 0x1C;
pub const SPF_PAGE_LIST_OFFSET: usize = 0x20;
pub const SPF_STRING_CONTROL_SIZE: usize = 0x0C;
pub const SPF_STRING_CONTROL_STR_ID: usize = 2;

/// Marker at +36 of every question record.
pub const SPF_SIGNATURE: [u8; 8] = [0xF8, 0xFF, 0xFF, 0xFF, 0xFF, 0xFF, 0xFF, 0xFF];
/// Marker at +44 of every question record.
pub const SPF_TAIL: [u8; 4] = [0x01, 0x00, 0x01, 0x00];

pub open spec fn spf_signature() -> Seq<u8> {
    seq![0xF8u8, 0xFF, 0xFF, 0xFF, 0xFF, 0xFF, 0xFF, 0xFF]
}

pub open spec fn spf_tail() -> Seq<u8> {
    seq![0x01u8, 0x00, 0x01, 0x00]
}

/// `$SPF`.
pub open spec fn container_sig() -> Seq<u8> {
    seq![0x24u8, 0x53, 0x50, 0x46]
}

/// The first position at or after `p` where `$SPF` occurs.
pub open spec fn first_container_from(b: Seq<u8>, p: int) -> Option<int>
    decreases b.len() - p,
{
    if p < 0 || p + 4 > b.len() {
        None
    } else if occurs_at(b, p, container_sig()) {
        Some(p)
    } else {
        first_container_from(b, p + 1)
    }
}

/// Offset of the first `$SPF` signature in `b`.
pub open spec fn spec_container_start(b: Seq<u8>) -> Option<int> {
    first_container_from(b, 0)
}

pub proof fn lemma_container_start(b: Seq<u8>, p: int)
    requires
        0 <= p,
    ensures
        first_container_from(b, p) matches Some(q) ==> p <= q && q + 4 <= b.len() && occurs_at(
            b,
            q,
            container_sig(),
        ),
    decreases b.len() - p,
{
    if p + 4 <= b.len() && !occurs_at(b, p, container_sig()) {
        lemma_container_start(b, p + 1);
    }
}

fn container_sig_bytes() -> (r: [u8; 4])
    ensures
        r@ == container_sig(),
{
    let r = [0x24u8, 0x53, 0x50, 0x46];
    assert(r@ =~= container_sig());
    r
}

/// Finds the `$SPF` container signature.
pub fn container_start(body: &[u8]) -> (r: Option<usize>)
    ensures
        r == (match spec_container_start(body@) {
            Some(p) => Some(p as usize),
            None => None::<usize>,
        }),
        r matches Some(p) ==> p + 4 <= body@.len(),
        spec_container_start(body@) matches Some(p) ==> 0 <= p && p + 4 <= body@.len() && occurs_at(
            body@,
            p,
            container_sig(),
        ),
{
    proof {
        lemma_container_start(body@, 0);
    }
    let sig = container_sig_bytes();
    if body.len() < 4 {
        return None;
    }
    let mut p: usize = 0;
    while p <= body.len() - 4
        invariant
            body@.len() >= 4,
            sig@ == container_sig(),
            p <= body@.len() - 3,
            first_container_from(body@, 0) == first_container_from(body@, p as int),
        decreases body@.len() - p,
    {
        if bytes_at_eq(body, p, &sig) {
            proof {
                lemma_container_start(body@, 0);
            }
            return Some(p);
        }
        p = p + 1;
    }
    None
}

/// A question record found by [`scan_question_records`].
#[derive(Debug, Clone, Copy, PartialEq, Eq)]
pub struct SpfQuestionRecord {
    pub offset: usize,
    pub question_id: u16,
    pub ifr_offset: u32,
    pub failsafe: u8,
    pub optimal: u8,
}

/// A question record starts at `p`: both markers are in place and the
/// 32-bit question id is a valid non-zero 16-bit id.
pub open spec fn record_at(b: Seq<u8>, p: int) -> bool {
    &&& 0 <= p
    &&& p + 72 <= b.len()
    &&& occurs_at(b, p + 36, spf_signature())
    &&& occurs_at(b, p + 44, spf_tail())
    &&& 1 <= le32(b, p) <= 0xFFFF
}

pub open spec fn spec_record(b: Seq<u8>, p: int) -> SpfQuestionRecord {
    SpfQuestionRecord {
        offset: p as usize,
        question_id: le32(b, p) as u16,
        ifr_offset: le32(b, p + 28) as u32,
        failsafe: b[p + 52],
        optimal: b[p + 53],
    }
}

/// The records that start below position `n`, in order.
pub open spec fn records_below(b: Seq<u8>, n: int) -> Seq<SpfQuestionRecord>
    decreases n,
{
    if n <= 0 {
        seq![]
    } else if record_at(b, n - 1) {
        records_below(b, n - 1).push(spec_record(b, n - 1))
    } else {
        records_below(b, n - 1)
    }
}

/// Every question record of the body, in order of position.
pub open spec fn spec_scan_question_records(b: Seq<u8>) -> Seq<SpfQuestionRecord> {
    records_below(b, b.len() as int)
}

proof fn lemma_records_below_tail(b: Seq<u8>, n: int)
    requires
        n >= b.len() - 71,
    ensures
        records_below(b, n) == records_below(b, b.len() as int),
    decreases (if n > b.len() { n - b.len() } else { b.len() - n }),
{
    if n > b.len() {
        lemma_records_below_tail(b, n - 1);
    } else if n < b.len() {
        lemma_records_below_tail(b, n + 1);
    }
}

pub proof fn lemma_records_below_valid(b: Seq<u8>, n: int)
    requires
        n <= b.len() <= usize::MAX,
    ensures
        forall|i: int|
            0 <= i < records_below(b, n).len() ==> {
                let r = #[trigger] records_below(b, n)[i];
                record_at(b, r.offset as int) && r == spec_record(b, r.offset as int) && r.offset < n
            },
        forall|i: int, j: int|
            0 <= i < j < records_below(b, n).len() ==> records_below(b, n)[i].offset + 8
                <= records_below(b, n)[j].offset,
    decreases n,
{
    if n > 0 {
        lemma_records_below_valid(b, n - 1);
        let prev = records_below(b, n - 1);
        if record_at(b, n - 1) {
            let cur = records_below(b, n);
            assert(cur == prev.push(spec_record(b, n - 1)));
            assert forall|i: int| 0 <= i < prev.len() implies prev[i].offset + 8 <= n - 1 by {
                let q = prev[i].offset as int;
                let d = n - 1 - q;
                assert(record_at(b, q));
                if d < 8 {
                    assert(b.subrange(q + 36, q + 44)[d] == b[q + 36 + d]);
                    assert(b.subrange(n - 1 + 36, n - 1 + 44)[0] == b[n - 1 + 36]);
                    assert(spf_signature()[d] == 0xFF);
                    assert(spf_signature()[0] == 0xF8);
                }
            }
            assert forall|i: int| 0 <= i < cur.len() implies {
                let r = #[trigger] cur[i];
                record_at(b, r.offset as int) && r == spec_record(b, r.offset as int) && r.offset < n
            } by {
                if i < prev.len() {
                    assert(cur[i] == prev[i]);
                    let r = prev[i];
                } else {
                    assert(cur[i] == spec_record(b, n - 1));
                }
            }
            assert forall|i: int, j: int| 0 <= i < j < cur.len() implies cur[i].offset + 8
                <= cur[j].offset by {
                if j < prev.len() {
                    assert(cur[i] == prev[i] && cur[j] == prev[j]);
                } else {
                    assert(cur[i] == prev[i]);
                    assert(cur[j] == spec_record(b, n - 1));
                }
            }
        }
    }
}

fn record_markers_at(body: &[u8], p: usize) -> (r: bool)
    requires
        p + 72 <= body@.len(),
    ensures
        r == (occurs_at(body@, p + 36, spf_signature()) && occurs_at(body@, p + 44, spf_tail())),
{
    let n = body.len();
    let sig = SPF_SIGNATURE;
    let tail = SPF_TAIL;
    assert(sig@ =~= spf_signature());
    assert(tail@ =~= spf_tail());
    bytes_at_eq(body, p + 36, &sig) && bytes_at_eq(body, p + 44, &tail)
}

/// All question records of the body, found by their markers.
pub fn scan_question_records(body: &[u8]) -> (out: Vec<SpfQuestionRecord>)
    ensures
        out@ == spec_scan_question_records(body@),
{
    let mut out: Vec<SpfQuestionRecord> = Vec::new();
    let n = body.len();
    if n < SPF_RECORD_SIZE {
        proof {
            lemma_records_below_tail(body@, 0);
        }
        return out;
    }
    let mut p: usize = 0;
    while p <= n - SPF_RECORD_SIZE
        invariant
            n == body@.len(),
            n >= 72,
            p <= n - 71,
            out@ == records_below(body@, p as int),
        decreases n - p,
    {
        if record_markers_at(body, p) {
            let qid = read_u32(body, p);
            if qid != 0 && qid <= 0xFFFF {
                out.push(
                    SpfQuestionRecord {
                        offset: p,
                        question_id: qid as u16,
                        ifr_offset: read_u32(body, p + SPF_RECORD_IFR_OFFSET),
                        failsafe: body[p + SPF_RECORD_FAILSAFE],
                        optimal: body[p + SPF_RECORD_OPTIMAL],
                    },
                );
            }
        }
        p = p + 1;
    }
    proof {
        lemma_records_below_tail(body@, p as int);
    }
    out
}

/// Sets the failsafe and optimal default bytes of the record at `offset`;
/// no other byte changes.
pub fn write_record_defaults(body: &mut [u8], offset: usize, failsafe: u8, optimal: u8)
    requires
        offset + SPF_RECORD_OPTIMAL < old(body)@.len(),
    ensures
        final(body)@ == old(body)@.update(offset + 52, failsafe).update(offset + 53, optimal),
{
    body[offset + SPF_RECORD_FAILSAFE] = failsafe;
    body[offset + SPF_RECORD_OPTIMAL] = optimal;
}

proof fn lemma_record_in_scan(b: Seq<u8>, p: int, n: int)
    requires
        record_at(b, p),
        p < n,
    ensures
        records_below(b, n).contains(spec_record(b, p)),
    decreases n,
{
    let prev = records_below(b, n - 1);
    if n - 1 == p {
        assert(records_below(b, n) == prev.push(spec_record(b, p)));
        assert(records_below(b, n)[prev.len() as int] == spec_record(b, p));
    } else {
        lemma_record_in_scan(b, p, n - 1);
        let k = choose|k: int| 0 <= k < prev.len() && prev[k] == spec_record(b, p);
        if record_at(b, n - 1) {
            assert(records_below(b, n)[k] == spec_record(b, p));
        } else {
            assert(records_below(b, n)[k] == spec_record(b, p));
        }
    }
}

/// Writing a record's defaults and scanning again gives them back: the
/// record is still found at its offset, with its question id and IFR offset
/// unchanged and the new failsafe and optimal values.
pub proof fn law_written_defaults_scan_back(b: Seq<u8>, k: int, failsafe: u8, optimal: u8)
    requires
        b.len() <= usize::MAX,
        0 <= k < spec_scan_question_records(b).len(),
    ensures
        ({
            let r = spec_scan_question_records(b)[k];
            let b2 = b.update(r.offset + 52, failsafe).update(r.offset + 53, optimal);
            spec_scan_question_records(b2).contains(
                SpfQuestionRecord { failsafe: failsafe, optimal: optimal, ..r },
            )
        }),
{
    lemma_records_below_valid(b, b.len() as int);
    let r = spec_scan_question_records(b)[k];
    let p = r.offset as int;
    let b2 = b.update(p + 52, failsafe).update(p + 53, optimal);
    assert(record_at(b, p));
    assert(b2.subrange(p + 36, p + 44) =~= b.subrange(p + 36, p + 44));
    assert(b2.subrange(p + 44, p + 48) =~= b.subrange(p + 44, p + 48));
    assert(record_at(b2, p));
    assert(spec_record(b2, p) == SpfQuestionRecord { failsafe: failsafe, optimal: optimal, ..r });
    lemma_record_in_scan(b2, p, b2.len() as int);
}

/// Sets the help string id of the record at `offset`; no other byte changes.
pub fn write_record_help_id(body: &mut [u8], offset: usize, help_id: u16)
    requires
        offset + SPF_RECORD_HELP_ID + 2 <= old(body)@.len(),
    ensures
        final(body)@ == splice_at(old(body)@, offset + 0x14, le16_bytes(help_id)),
{
    let n = body.len();
    let b = u16_bytes(help_id);
    write_at(body, offset + SPF_RECORD_HELP_ID, b.as_slice());
}

/// A string control found by [`scan_string_controls`]; `offset` addresses its
/// string-id field.
#[derive(Debug, Clone, Copy, PartialEq, Eq)]
pub struct SpfStringControl {
    pub offset: usize,
    pub string_id: u16,
}

/// A string control starts at `p`: kind 5, zero at +4 and 78 at +10.
pub open spec fn control_at(b: Seq<u8>, p: int) -> bool {
    0 <= p && p + 12 <= b.len() && le16(b, p) == 5 && le16(b, p + 4) == 0 && le16(b, p + 10) == 78
}

pub open spec fn controls_below(b: Seq<u8>, n: int) -> Seq<SpfStringControl>
    decreases n,
{
    if n <= 0 {
        seq![]
    } else if control_at(b, n - 1) {
        controls_below(b, n - 1).push(
            SpfStringControl { offset: (n - 1 + 2) as usize, string_id: le16(b, n + 1) as u16 },
        )
    } else {
        controls_below(b, n - 1)
    }
}

pub open spec fn spec_scan_string_controls(b: Seq<u8>) -> Seq<SpfStringControl> {
    controls_below(b, b.len() as int)
}

proof fn lemma_controls_below_tail(b: Seq<u8>, n: int)
    requires
        n >= b.len() - 11,
    ensures
        controls_below(b, n) == controls_below(b, b.len() as int),
    decreases (if n > b.len() { n - b.len() } else { b.len() - n }),
{
    if n > b.len() {
        lemma_controls_below_tail(b, n - 1);
    } else if n < b.len() {
        lemma_controls_below_tail(b, n + 1);
    }
}

/// Every string control of the body, in order of position.
pub fn scan_string_controls(body: &[u8]) -> (out: Vec<SpfStringControl>)
    ensures
        out@ == spec_scan_string_controls(body@),
{
    let mut out: Vec<SpfStringControl> = Vec::new();
    let n = body.len();
    if n < 0xC {
        proof {
            lemma_controls_below_tail(body@, 0);
        }
        return out;
    }
    let mut p: usize = 0;
    while p <= n - 0xC
        invariant
            n == body@.len(),
            n >= 12,
            p <= n - 11,
            out@ == controls_below(body@, p as int),
        decreases n - p,
    {
        if read_u16(body, p) == 5 && read_u16(body, p + 4) == 0 && read_u16(body, p + 0xA) == 78 {
            out.push(
                SpfStringControl {
                    offset: p + SPF_STRING_CONTROL_STR_ID,
                    string_id: read_u16(body, p + 2),
                },
            );
        }
        p = p + 1;
    }
    proof {
        lemma_controls_below_tail(body@, p as int);
    }
    out
}

/// Sets the string id at `offset`; no other byte changes.
pub fn write_string_control(body: &mut [u8], offset: usize, string_id: u16)
    requires
        offset + 2 <= old(body)@.len(),
    ensures
        final(body)@ == splice_at(old(body)@, offset as int, le16_bytes(string_id)),
{
    let b = u16_bytes(string_id);
    write_at(body, offset, b.as_slice());
}

/// A record cloned from `template` with every identifying field replaced.
pub open spec fn patched_record(
    template: Seq<u8>,
    qid: u16,
    help_id: u16,
    prompt_id: u16,
    ifr_offset: u32,
    counter: u32,
    failsafe: u8,
    optimal: u8,
) -> Seq<u8> {
    splice_at(
        splice_at(
            splice_at(
                splice_at(splice_at(template, 0, le32_bytes(qid as u32)), 0x14, le16_bytes(help_id)),
                0x30,
                le16_bytes(prompt_id),
            ),
            28,
            le32_bytes(ifr_offset),
        ),
        0x18,
        le32_bytes(counter),
    ).update(52, failsafe).update(53, optimal)
}

/// Appends a copy of the record at container offset `template` with its
/// question id, help id, prompt id, IFR offset, counter and defaults
/// replaced; returns the container offset of the new record.
pub fn append_question_record(
    body: &mut Vec<u8>,
    template: usize,
    qid: u16,
    help_id: u16,
    prompt_id: u16,
    ifr_offset: u32,
    counter: u32,
    failsafe: u8,
    optimal: u8,
) -> (offset: usize)
    requires
        spec_container_start(old(body)@) matches Some(base) && base + template + SPF_RECORD_SIZE
            <= old(body)@.len(),
    ensures
        spec_container_start(old(body)@) matches Some(base) && {
            let src = base + template;
            &&& offset == old(body)@.len() - base
            &&& final(body)@ == old(body)@ + patched_record(
                old(body)@.subrange(src, src + 72),
                qid,
                help_id,
                prompt_id,
                ifr_offset,
                counter,
                failsafe,
                optimal,
            )
        },
{
    let n = body.len();
    let base = container_start(body.as_slice()).unwrap();
    let src = base + template;
    let mut rec = copy_range(body.as_slice(), src, src + SPF_RECORD_SIZE);
    let b = u32_bytes(qid as u32);
    write_at(rec.as_mut_slice(), 0, b.as_slice());
    let b = u16_bytes(help_id);
    write_at(rec.as_mut_slice(), SPF_RECORD_HELP_ID, b.as_slice());
    let b = u16_bytes(prompt_id);
    write_at(rec.as_mut_slice(), SPF_RECORD_PROMPT_ID_OFFSET, b.as_slice());
    let b = u32_bytes(ifr_offset);
    write_at(rec.as_mut_slice(), SPF_RECORD_IFR_OFFSET, b.as_slice());
    let b = u32_bytes(counter);
    write_at(rec.as_mut_slice(), SPF_RECORD_COUNTER_OFFSET, b.as_slice());
    rec.set(SPF_RECORD_FAILSAFE, failsafe);
    rec.set(SPF_RECORD_OPTIMAL, optimal);
    let offset = body.len() - base;
    push_all(body, rec.as_slice());
    offset
}

/// Appends a copy of the string control whose string-id field is at
/// container offset `template`, with the string id replaced; returns the
/// container offset of the new control's string-id field.
pub fn append_string_control(body: &mut Vec<u8>, template: usize, string_id: u16) -> (offset: usize)
    requires
        spec_container_start(old(body)@) matches Some(base) && template >= 2 && base + template - 2
            + SPF_STRING_CONTROL_SIZE <= old(body)@.len(),
    ensures
        spec_container_start(old(body)@) matches Some(base) && {
            let src = base + template - 2;
            &&& offset == old(body)@.len() - base + 2
            &&& final(body)@ == old(body)@ + splice_at(
                old(body)@.subrange(src, src + 12),
                2,
                le16_bytes(string_id),
            )
        },
{
    let n = body.len();
    let base = container_start(body.as_slice()).unwrap();
    let src = base + template - SPF_STRING_CONTROL_STR_ID;
    let mut ctrl = copy_range(body.as_slice(), src, src + SPF_STRING_CONTROL_SIZE);
    let b = u16_bytes(string_id);
    write_at(ctrl.as_mut_slice(), SPF_STRING_CONTROL_STR_ID, b.as_slice());
    let off0 = body.len() - base;
    push_all(body, ctrl.as_slice());
    let new_len = body.len();
    assert(new_len == old(body)@.len() + 12);
    off0 + SPF_STRING_CONTROL_STR_ID
}

/// The little-endian bytes of each control offset, in order.
pub open spec fn u32_list_bytes(v: Seq<u32>) -> Seq<u8>
    decreases v.len(),
{
    if v.len() == 0 {
        seq![]
    } else {
        u32_list_bytes(v.drop_last()) + le32_bytes(v.last())
    }
}

proof fn lemma_u32_list_bytes_len(v: Seq<u32>)
    ensures
        u32_list_bytes(v).len() == 4 * v.len(),
    decreases v.len(),
{
    if v.len() > 0 {
        lemma_u32_list_bytes_len(v.drop_last());
    }
}

/// Number of controls a page lists.
pub open spec fn page_count(b: Seq<u8>, page: int) -> int {
    le32(b, page + 0x1C)
}

/// End of a page's control list.
pub open spec fn page_list_end(b: Seq<u8>, page: int) -> int {
    page + 0x20 + 4 * page_count(b, page)
}

/// The non-zero slot right after the control list, kept as the terminal slot.
pub open spec fn page_trailing(b: Seq<u8>, page: int) -> Seq<u8> {
    let tail = page_list_end(b, page);
    if tail + 4 <= b.len() && le32(b, tail) != 0 {
        b.subrange(tail, tail + 4)
    } else {
        seq![]
    }
}

/// The page at `page` copied with `extra` controls added before its terminal
/// slot and its count raised accordingly.
pub open spec fn spec_page_clone(b: Seq<u8>, page: int, extra: Seq<u32>) -> Seq<u8> {
    let list = page + 0x20;
    let tail = page_list_end(b, page);
    splice_at(
        b.subrange(page, list) + b.subrange(list, tail) + u32_list_bytes(extra) + page_trailing(
            b,
            page,
        ),
        0x1C,
        le32_bytes((page_count(b, page) + extra.len()) as u32),
    )
}

/// Appends a copy of the page at container offset `page_offset` extended
/// with `extra_ctrls`; returns the container offset of the copy.
pub fn clone_page_with_controls(body: &mut Vec<u8>, page_offset: usize, extra_ctrls: &[u32]) -> (offset:
    usize)
    requires
        spec_container_start(old(body)@) matches Some(base) && {
            let page = base + page_offset;
            &&& page + 0x20 <= old(body)@.len()
            &&& page_list_end(old(body)@, page) <= old(body)@.len()
            &&& page_count(old(body)@, page) + extra_ctrls@.len() <= u32::MAX
        },
    ensures
        spec_container_start(old(body)@) matches Some(base) && {
            &&& offset == old(body)@.len() - base
            &&& final(body)@ == old(body)@ + spec_page_clone(
                old(body)@,
                base + page_offset,
                extra_ctrls@,
            )
        },
{
    let n = body.len();
    let base = container_start(body.as_slice()).unwrap();
    let page = base + page_offset;
    let cnt = read_u32(body.as_slice(), page + SPF_PAGE_CNT_OFFSET);
    let list = page + SPF_PAGE_LIST_OFFSET;
    let tail = list + 4 * (cnt as usize);
    let mut clone = copy_range(body.as_slice(), page, page + SPF_PAGE_HEADER_SIZE);
    let listed = copy_range(body.as_slice(), list, tail);
    push_all(&mut clone, listed.as_slice());
    let mut k: usize = 0;
    let ghost start = clone@;
    while k < extra_ctrls.len()
        invariant
            k <= extra_ctrls@.len(),
            clone@ == start + u32_list_bytes(extra_ctrls@.subrange(0, k as int)),
        decreases extra_ctrls@.len() - k,
    {
        let b = u32_bytes(extra_ctrls[k]);
        push_all(&mut clone, b.as_slice());
        k = k + 1;
        assert(extra_ctrls@.subrange(0, k as int).drop_last() =~= extra_ctrls@.subrange(
            0,
            k - 1,
        ));
    }
    assert(extra_ctrls@.subrange(0, extra_ctrls@.len() as int) =~= extra_ctrls@);
    if tail <= n && n - tail >= 4 {
        let t = read_u32(body.as_slice(), tail);
        if t != 0 {
            let tb = copy_range(body.as_slice(), tail, tail + 4);
            push_all(&mut clone, tb.as_slice());
        }
    }
    proof {
        lemma_u32_list_bytes_len(extra_ctrls@);
    }
    let new_cnt = cnt + extra_ctrls.len() as u32;
    let b = u32_bytes(new_cnt);
    write_at(clone.as_mut_slice(), SPF_PAGE_CNT_OFFSET, b.as_slice());
    let offset = body.len() - base;
    push_all(body, clone.as_slice());
    assert(clone@ =~= spec_page_clone(old(body)@, page as int, extra_ctrls@));
    offset
}

/// Points page-table slot `slot` at container offset `new_offset`; no other
/// byte changes.
pub fn repoint_page_slot(body: &mut [u8], slot: usize, new_offset: u32)
    requires
        spec_container_start(old(body)@) matches Some(base) && base + SPF_PAGE_TABLE_OFFSET + 4
            * slot + 4 <= old(body)@.len(),
    ensures
        spec_container_start(old(body)@) matches Some(base) && final(body)@ == splice_at(
            old(body)@,
            base + 0x64 + 4 * slot,
            le32_bytes(new_offset),
        ),
{
    let n = body.len();
    let base = container_start(body).unwrap();
    let at = base + SPF_PAGE_TABLE_OFFSET + 4 * slot;
    let b = u32_bytes(new_offset);
    write_at(body, at, b.as_slice());
}

/// The `k`-th of the twelve 32-bit offsets of the container header.
pub open spec fn header_field(b: Seq<u8>, base: int, k: int) -> int {
    le32(b, base + 0x30 + 4 * k)
}

/// Index of the last largest of the first `k + 1` header offsets.
pub open spec fn last_max_field(b: Seq<u8>, base: int, k: int) -> int
    decreases k,
{
    if k <= 0 {
        0
    } else {
        let prev = last_max_field(b, base, k - 1);
        if header_field(b, base, k) >= header_field(b, base, prev) {
            k
        } else {
            prev
        }
    }
}

proof fn lemma_last_max_field(b: Seq<u8>, base: int, k: int)
    requires
        k >= 0,
    ensures
        0 <= last_max_field(b, base, k) <= k,
    decreases k,
{
    if k > 0 {
        lemma_last_max_field(b, base, k - 1);
    }
}

/// Rewrites the container's length: the header offset that currently holds
/// the largest value (the last such one) is set to `new_len`.
pub fn bump_container_length(body: &mut [u8], new_len: usize)
    requires
        spec_container_start(old(body)@) matches Some(base) && base + SPF_PAGE_COUNT_OFFSET <= old(
            body,
        )@.len(),
    ensures
        spec_container_start(old(body)@) matches Some(base) && final(body)@ == splice_at(
            old(body)@,
            base + 0x30 + 4 * last_max_field(old(body)@, base, 11),
            le32_bytes(new_len as u32),
        ),
{
    let n = body.len();
    let base = container_start(body).unwrap();
    let mut at_k: usize = 0;
    let mut max = read_u32(body, base + SPF_HEADER_REGION_OFFSETS);
    let mut k: usize = 1;
    while k < 12
        invariant
            n == body@.len(),
            base + 0x60 <= n,
            1 <= k <= 12,
            at_k == last_max_field(body@, base as int, k - 1),
            max == header_field(body@, base as int, at_k as int),
        decreases 12 - k,
    {
        let v = read_u32(body, base + SPF_HEADER_REGION_OFFSETS + 4 * k);
        if v >= max {
            max = v;
            at_k = k;
        }
        k = k + 1;
    }
    proof {
        lemma_last_max_field(body@, base as int, 11);
    }
    let b = u32_bytes(new_len as u32);
    write_at(body, base + SPF_HEADER_REGION_OFFSETS + 4 * at_k, b.as_slice());
}

/// `b` with the IFR offset of every record of `recs` at or above `threshold`
/// moved up by `delta`, applied in order.
pub open spec fn apply_ifr_fixups(
    b: Seq<u8>,
    recs: Seq<SpfQuestionRecord>,
    threshold: u32,
    delta: u32,
) -> Seq<u8>
    decreases recs.len(),
{
    if recs.len() == 0 {
        b
    } else {
        let prev = apply_ifr_fixups(b, recs.drop_last(), threshold, delta);
        let r = recs.last();
        if r.ifr_offset >= threshold {
            splice_at(prev, r.offset + 28, le32_bytes((r.ifr_offset + delta) as u32))
        } else {
            prev
        }
    }
}

/// How many of `recs` sit at or above `threshold`.
pub open spec fn count_at_or_above(recs: Seq<SpfQuestionRecord>, threshold: u32) -> int
    decreases recs.len(),
{
    if recs.len() == 0 {
        0
    } else {
        count_at_or_above(recs.drop_last(), threshold) + (if recs.last().ifr_offset >= threshold {
            1int
        } else {
            0
        })
    }
}

proof fn lemma_count_bound(recs: Seq<SpfQuestionRecord>, threshold: u32)
    ensures
        0 <= count_at_or_above(recs, threshold) <= recs.len(),
    decreases recs.len(),
{
    if recs.len() > 0 {
        lemma_count_bound(recs.drop_last(), threshold);
    }
}

proof fn lemma_apply_len(b: Seq<u8>, recs: Seq<SpfQuestionRecord>, threshold: u32, delta: u32)
    requires
        forall|i: int| 0 <= i < recs.len() ==> #[trigger] recs[i].offset + 72 <= b.len(),
    ensures
        apply_ifr_fixups(b, recs, threshold, delta).len() == b.len(),
    decreases recs.len(),
{
    if recs.len() > 0 {
        let rest = recs.drop_last();
        assert forall|i: int| 0 <= i < rest.len() implies #[trigger] rest[i].offset + 72 <= b.len() by {
            assert(rest[i] == recs[i]);
        }
        lemma_apply_len(b, rest, threshold, delta);
        assert(recs.last() == recs[recs.len() - 1]);
    }
}

/// Moves the IFR offset of every question record at or above `threshold`
/// up by `delta` (after IFR bytes were inserted at `threshold`); returns how
/// many records changed. Records are those found in the body before any write.
pub fn fixup_record_ifr_offsets(body: &mut [u8], threshold: u32, delta: u32) -> (patched: usize)
    requires
        spec_container_start(old(body)@).is_some(),
        forall|i: int|
            0 <= i < spec_scan_question_records(old(body)@).len() ==> (#[trigger] spec_scan_question_records(old(body)@)[i]).ifr_offset
                >= threshold ==> spec_scan_question_records(old(body)@)[i].ifr_offset + delta
                <= u32::MAX,
    ensures
        final(body)@ == apply_ifr_fixups(
            old(body)@,
            spec_scan_question_records(old(body)@),
            threshold,
            delta,
        ),
        patched == count_at_or_above(spec_scan_question_records(old(body)@), threshold),
{
    let n = body.len();
    let _ = container_start(body);
    let recs = scan_question_records(body);
    proof {
        lemma_records_below_valid(old(body)@, old(body)@.len() as int);
    }
    let mut patched: usize = 0;
    let mut k: usize = 0;
    while k < recs.len()
        invariant
            n == body@.len(),
            n == old(body)@.len(),
            recs@ == spec_scan_question_records(old(body)@),
            forall|i: int| 0 <= i < recs@.len() ==> #[trigger] recs@[i].offset + 72 <= n,
            forall|i: int|
                0 <= i < recs@.len() ==> (#[trigger] recs@[i]).ifr_offset >= threshold
                    ==> recs@[i].ifr_offset + delta <= u32::MAX,
            k <= recs@.len(),
            body@ == apply_ifr_fixups(old(body)@, recs@.subrange(0, k as int), threshold, delta),
            patched == count_at_or_above(recs@.subrange(0, k as int), threshold),
        decreases recs@.len() - k,
    {
        let r = recs[k];
        let ghost sub = recs@.subrange(0, k + 1);
        assert(sub.drop_last() =~= recs@.subrange(0, k as int));
        assert(sub.last() == r);
        proof {
            let pre = recs@.subrange(0, k as int);
            assert forall|i: int| 0 <= i < pre.len() implies #[trigger] pre[i].offset + 72 <= n by {
                assert(pre[i] == recs@[i]);
            }
            lemma_apply_len(old(body)@, pre, threshold, delta);
            lemma_count_bound(pre, threshold);
        }
        if r.ifr_offset >= threshold {
            let b = u32_bytes(r.ifr_offset + delta);
            write_at(body, r.offset + SPF_RECORD_IFR_OFFSET, b.as_slice());
            patched = patched + 1;
        }
        k = k + 1;
    }
    assert(recs@.subrange(0, recs@.len() as int) =~= recs@);
    patched
}

} // verus!
