//! Serialises an image tree back to bytes: untouched nodes verbatim, edited
//! ones rebuilt from their children with fresh sizes, alignment padding and
//! checksums, and LZMA-wrapped sections recompressed.

pub mod align;

use vstd::prelude::*;
use crate::bytes::{le64_bytes, le32_bytes, splice_at, push_all, read_u16, le16, u32_bytes, u64_bytes, write_at};
use crate::compress::{compress_lzma, spec_compress_lzma, CompressError};
use crate::decompress::lzma_alone_decode;
use crate::ffs::{
    byte_sum, calculate_checksum8, is_large_section, is_recompressable_lzma_guid, size_to_uint24,
    spec_checksum8, spec_is_large_section, spec_is_recompressable_lzma_guid, spec_uint24,
    EFI_SECTION_COMPRESSION, EFI_SECTION_GUID_DEFINED,
};
use crate::types::{Action, FfsNode, FfsType, Image, ParsingData, VolumeParsingData};
use self::align::{align4, align8, pad_to, padded, round_up};

verus! {

/// File attribute: the file checksum covers the file data.
pub const FFS_ATTRIB_CHECKSUM: u8 = 0x40;

#[derive(Debug, Clone, Copy, PartialEq, Eq)]
pub enum BuilderError {
    SizeMismatch,
    ChecksumFailed,
    Compression(CompressError),
    RecompressionUnsupported,
}

/// Compression and GUID-defined sections wrap their children in an encoding.
pub open spec fn spec_is_compressed_or_guided(n: FfsNode) -> bool {
    n.subtype == EFI_SECTION_COMPRESSION || n.subtype == EFI_SECTION_GUID_DEFINED
}

pub fn is_compressed_or_guided(node: &FfsNode) -> (r: bool)
    ensures
        r == spec_is_compressed_or_guided(*node),
{
    node.subtype == EFI_SECTION_COMPRESSION || node.subtype == EFI_SECTION_GUID_DEFINED
}

/// The section is GUID-defined with a GUID this library can recompress.
pub open spec fn spec_recompressable_guid(n: FfsNode) -> bool {
    match n.parsing_data {
        ParsingData::GuidedSection(d) => spec_is_recompressable_lzma_guid(d.guid@),
        _ => false,
    }
}

pub fn recompressable_guid(node: &FfsNode) -> (r: bool)
    ensures
        r == spec_recompressable_guid(*node),
{
    match &node.parsing_data {
        ParsingData::GuidedSection(d) => is_recompressable_lzma_guid(&d.guid),
        _ => false,
    }
}

/// The node or a node below it has an edit pending.
pub open spec fn spec_subtree_dirty(n: FfsNode) -> bool
    decreases n, 1int,
{
    n.action != Action::NoAction || any_dirty(n.children@, n.children@.len() as int)
}

/// One of the first `k` trees of `cs` has an edit pending.
pub open spec fn any_dirty(cs: Seq<FfsNode>, k: int) -> bool
    decreases cs, k,
{
    if k <= 0 || k > cs.len() {
        false
    } else {
        spec_subtree_dirty(cs[k - 1]) || any_dirty(cs, k - 1)
    }
}

proof fn lemma_any_dirty_mono(cs: Seq<FfsNode>, j: int, m: int)
    requires
        0 <= j <= m <= cs.len(),
        any_dirty(cs, j),
    ensures
        any_dirty(cs, m),
    decreases m - j,
{
    if j < m {
        lemma_any_dirty_mono(cs, j, m - 1);
    }
}

pub fn subtree_dirty(node: &FfsNode) -> (r: bool)
    ensures
        r == spec_subtree_dirty(*node),
    decreases node,
{
    if node.action != Action::NoAction {
        return true;
    }
    let n = node.children.len();
    let mut k: usize = 0;
    while k < n
        invariant
            n == node.children@.len(),
            k <= n,
            !any_dirty(node.children@, k as int),
        decreases n - k,
    {
        if subtree_dirty(&node.children[k]) {
            proof {
                assert(any_dirty(node.children@, k + 1));
                lemma_any_dirty_mono(node.children@, k + 1, n as int);
            }
            return true;
        }
        k = k + 1;
    }
    false
}

/// An FFS file header with a new size: the 64-bit field (and 0xFFFFFF in the
/// 24-bit one) for a header of 32 bytes or more, the 24-bit field otherwise.
pub open spec fn spec_set_ffs_size(h: Seq<u8>, total: usize) -> Seq<u8> {
    if h.len() >= 32 {
        splice_at(splice_at(h, 24, le64_bytes(total as u64)), 20, seq![0xFFu8, 0xFFu8, 0xFFu8])
    } else {
        splice_at(h, 20, spec_uint24(total as u32))
    }
}

/// Writes `total` into the size field of an FFS file header.
pub fn set_ffs_size(header: &mut [u8], total: usize)
    requires
        old(header)@.len() >= 23,
    ensures
        final(header)@ == spec_set_ffs_size(old(header)@, total),
{
    if header.len() >= 32 {
        let b = u64_bytes(total as u64);
        write_at(header, 24, b.as_slice());
        header[20] = 0xFF;
        header[21] = 0xFF;
        header[22] = 0xFF;
        assert(header@ =~= spec_set_ffs_size(old(header)@, total));
    } else {
        let sb = size_to_uint24(total as u32);
        header[20] = sb[0];
        header[21] = sb[1];
        header[22] = sb[2];
        assert(header@ =~= spec_set_ffs_size(old(header)@, total));
    }
}

/// A section header with a new size: the 32-bit field of a large header,
/// the 24-bit field otherwise.
pub open spec fn spec_set_section_size(h: Seq<u8>, total: usize) -> Seq<u8> {
    if spec_is_large_section(h) {
        splice_at(h, 4, le32_bytes(total as u32))
    } else {
        splice_at(h, 0, spec_uint24(total as u32))
    }
}

/// Writes `total` into the size field of a section header.
pub fn set_section_size(header: &mut [u8], total: usize)
    requires
        old(header)@.len() >= 3,
    ensures
        final(header)@ == spec_set_section_size(old(header)@, total),
{
    if is_large_section(header) {
        let b = u32_bytes(total as u32);
        write_at(header, 4, b.as_slice());
    } else {
        let sb = size_to_uint24(total as u32);
        header[0] = sb[0];
        header[1] = sb[1];
        header[2] = sb[2];
        assert(header@ =~= spec_set_section_size(old(header)@, total));
    }
}

/// The header checksum byte: what makes the header sum to 0 mod 256 with
/// the header-checksum, file-checksum and state bytes left out.
pub open spec fn header_checksum_for(h: Seq<u8>) -> u8 {
    ((256 - (byte_sum(h) - h[16] - h[17] - h[23]) % 256) % 256) as u8
}

/// An FFS file header with its header checksum recomputed, and its file
/// checksum too when the header asks for a data checksum.
pub open spec fn spec_recompute_checksums(h: Seq<u8>, body: Seq<u8>) -> Seq<u8> {
    if h.len() < 24 {
        h
    } else {
        let h1 = h.update(16, header_checksum_for(h));
        if h[19] & FFS_ATTRIB_CHECKSUM != 0 {
            h1.update(17, spec_checksum8(body))
        } else {
            h1
        }
    }
}

proof fn lemma_byte_sum_update(s: Seq<u8>, i: int, v: u8)
    requires
        0 <= i < s.len(),
    ensures
        byte_sum(s.update(i, v)) == byte_sum(s) - s[i] + v,
    decreases s.len(),
{
    if i < s.len() - 1 {
        lemma_byte_sum_update(s.drop_last(), i, v);
        assert(s.update(i, v).drop_last() =~= s.drop_last().update(i, v));
    } else {
        assert(s.update(i, v).drop_last() =~= s.drop_last());
    }
}

proof fn lemma_checksum_arith(bs: int, x: int, cs: int, s: int, t: int, c16: int)
    requires
        bs >= 0,
        0 <= x < 768,
        cs == (256 - bs % 256) % 256,
        s == (256 - cs) % 256,
        t == (s + 768 - x) % 256,
        c16 == (256 - t) % 256,
    ensures
        c16 == (256 - (bs - x) % 256) % 256,
        (bs - x + c16) % 256 == 0,
        0 <= c16 < 256,
{
    assert(s == bs % 256);
    assert((s + 768 - x) % 256 == (bs - x) % 256) by (nonlinear_arith)
        requires
            s == bs % 256,
            bs >= 0,
    ;
    assert((bs - x + (256 - (bs - x) % 256) % 256) % 256 == 0) by (nonlinear_arith);
}

/// Recomputes the checksums of an FFS file header for file data `body`; the
/// header then sums to 0 mod 256 once its file-checksum and state bytes are
/// left out.
pub fn recompute_ffs_checksums(header: &mut [u8], body: &[u8])
    ensures
        final(header)@ == spec_recompute_checksums(old(header)@, body@),
        old(header)@.len() >= 24 ==> (byte_sum(final(header)@) - final(header)@[17]
            - final(header)@[23]) % 256 == 0,
{
    if header.len() < 24 {
        return;
    }
    let ghost h = header@;
    let cs = calculate_checksum8(header);
    let s: u32 = (256 - cs as u32) % 256;
    let x: u32 = header[16] as u32 + header[17] as u32 + header[23] as u32;
    let t: u32 = (s + 768 - x) % 256;
    let c16: u8 = ((256 - t) % 256) as u8;
    proof {
        crate::ffs::lemma_byte_sum_nonneg(h);
        lemma_checksum_arith(byte_sum(h), x as int, cs as int, s as int, t as int, c16 as int);
    }
    header[16] = c16;
    proof {
        lemma_byte_sum_update(h, 16, c16);
    }
    let attrs = header[19];
    if attrs & FFS_ATTRIB_CHECKSUM != 0 {
        let ghost h1 = header@;
        let f = calculate_checksum8(body);
        header[17] = f;
        proof {
            lemma_byte_sum_update(h1, 17, f);
        }
    }
    assert(header@ =~= spec_recompute_checksums(h, body@));
}


/// A node's original bytes: header, body, tail.
pub open spec fn verbatim(n: FfsNode) -> Seq<u8> {
    n.header@ + n.body@ + n.tail@
}

/// The fill byte of a volume: its erase polarity, 0xFF when unknown.
pub open spec fn spec_empty_byte(n: FfsNode) -> u8 {
    match n.parsing_data {
        ParsingData::Volume(vd) => vd.empty_byte,
        _ => 0xFF,
    }
}

/// The node is a wrapping section whose children will be recompressed.
pub open spec fn is_recompressed(n: FfsNode) -> bool {
    &&& n.node_type == FfsType::Section
    &&& n.action != Action::Remove
    &&& spec_is_compressed_or_guided(n)
    &&& !(n.action == Action::NoAction && !spec_subtree_dirty(n))
    &&& n.subtype == EFI_SECTION_GUID_DEFINED
    &&& spec_recompressable_guid(n)
    &&& n.children@.len() > 0
}

/// The bytes a node rebuilds to (`Some(Ok)`) or the error it is refused with
/// (`Some(Err)`); every tree has one (`law_build_is_total`).
pub open spec fn spec_build(n: FfsNode) -> Option<Result<Seq<u8>, BuilderError>>
    decreases n, 3int,
{
    match n.node_type {
        FfsType::Volume => spec_build_volume(n),
        FfsType::File => spec_build_file(n),
        FfsType::Section => spec_build_section(n),
        FfsType::Padding | FfsType::FreeSpace => Some(Ok(n.body@)),
        _ => concat_fold(n.children@, n.children@.len() as int),
    }
}

/// The first `k` trees of `cs` rebuilt back to back.
pub open spec fn concat_fold(cs: Seq<FfsNode>, k: int) -> Option<Result<Seq<u8>, BuilderError>>
    decreases cs, k,
{
    if k <= 0 || k > cs.len() {
        Some(Ok(Seq::empty()))
    } else {
        match concat_fold(cs, k - 1) {
            Some(Ok(a)) => match spec_build(cs[k - 1]) {
                Some(Ok(b)) => Some(Ok(a + b)),
                other => other,
            },
            other => other,
        }
    }
}

/// The first `k` trees of `cs` rebuilt in turn, each followed by zero
/// padding to a 4-byte boundary: the data of a file or section.
pub open spec fn aligned_fold(cs: Seq<FfsNode>, k: int) -> Option<Result<Seq<u8>, BuilderError>>
    decreases cs, k,
{
    if k <= 0 || k > cs.len() {
        Some(Ok(Seq::empty()))
    } else {
        match aligned_fold(cs, k - 1) {
            Some(Ok(acc)) => match spec_build(cs[k - 1]) {
                Some(Ok(b)) => if acc.len() + b.len() + 3 > usize::MAX {
                    Some(Err(BuilderError::SizeMismatch))
                } else {
                    Some(Ok(padded(acc + b, round_up((acc.len() + b.len()) as int, 4), 0u8)))
                },
                other => other,
            },
            other => other,
        }
    }
}

/// A volume's header followed by its first `k` surviving children, each
/// placed at an 8-byte boundary (from the volume start) with `fill` before it.
pub open spec fn vol_fold(cs: Seq<FfsNode>, k: int, h: Seq<u8>, fill: u8) -> Option<
    Result<Seq<u8>, BuilderError>,
>
    decreases cs, k,
{
    if k <= 0 || k > cs.len() {
        Some(Ok(h))
    } else {
        match vol_fold(cs, k - 1, h, fill) {
            Some(Ok(acc)) => if cs[k - 1].action == Action::Remove {
                Some(Ok(acc))
            } else if acc.len() + 7 > usize::MAX {
                Some(Err(BuilderError::SizeMismatch))
            } else {
                match spec_build(cs[k - 1]) {
                    Some(Ok(b)) => Some(Ok(padded(acc, round_up(acc.len() as int, 8), fill) + b)),
                    other => other,
                }
            },
            other => other,
        }
    }
}

/// A volume: removed, verbatim when untouched, or its children laid out in
/// the original extent (header plus body) padded with the fill byte, then
/// the tail; content beyond the extent is refused.
pub open spec fn spec_build_volume(n: FfsNode) -> Option<Result<Seq<u8>, BuilderError>>
    decreases n, 2int,
{
    if n.action == Action::Remove {
        Some(Ok(Seq::empty()))
    } else if n.action == Action::NoAction {
        Some(Ok(verbatim(n)))
    } else if n.header@.len() + n.body@.len() > usize::MAX {
        Some(Err(BuilderError::SizeMismatch))
    } else {
        let cap = n.header@.len() + n.body@.len();
        match vol_fold(n.children@, n.children@.len() as int, n.header@, spec_empty_byte(n)) {
            Some(Ok(acc)) => if acc.len() > cap {
                Some(Err(BuilderError::SizeMismatch))
            } else {
                Some(Ok(padded(acc, cap as int, spec_empty_byte(n)) + n.tail@))
            },
            other => other,
        }
    }
}

/// The data of a rebuilt file or plain section: its body when it has no
/// children, its children aligned otherwise.
pub open spec fn node_data(n: FfsNode) -> Option<Result<Seq<u8>, BuilderError>>
    decreases n, 1int,
{
    if n.children@.len() == 0 {
        Some(Ok(n.body@))
    } else {
        aligned_fold(n.children@, n.children@.len() as int)
    }
}

/// A file: removed, verbatim when untouched, or its data under a header with
/// the new size and recomputed checksums, then the tail.
pub open spec fn spec_build_file(n: FfsNode) -> Option<Result<Seq<u8>, BuilderError>>
    decreases n, 2int,
{
    if n.action == Action::Remove {
        Some(Ok(Seq::empty()))
    } else if n.action == Action::NoAction {
        Some(Ok(verbatim(n)))
    } else {
        match node_data(n) {
            Some(Ok(b)) => if n.header@.len() + b.len() + n.tail@.len() > usize::MAX {
                Some(Err(BuilderError::SizeMismatch))
            } else {
                let total = (n.header@.len() + b.len() + n.tail@.len()) as usize;
                Some(
                    Ok(
                        spec_recompute_checksums(spec_set_ffs_size(n.header@, total), b) + b
                            + n.tail@,
                    ),
                )
            },
            other => other,
        }
    }
}

/// A section: removed; a wrapping section verbatim when nothing below it
/// changed, recompressed when it is LZMA-guided with children, refused
/// otherwise; a plain section verbatim when untouched, else its data under a
/// header with the new size.
pub open spec fn spec_build_section(n: FfsNode) -> Option<Result<Seq<u8>, BuilderError>>
    decreases n, 2int,
{
    if n.action == Action::Remove {
        Some(Ok(Seq::empty()))
    } else if spec_is_compressed_or_guided(n) {
        if n.action == Action::NoAction && !spec_subtree_dirty(n) {
            Some(Ok(verbatim(n)))
        } else if n.subtype == EFI_SECTION_GUID_DEFINED && spec_recompressable_guid(n)
            && n.children@.len() > 0 {
            match node_data(n) {
                Some(Ok(cb)) => Some(recompress_outcome(n, cb)),
                other => other,
            }
        } else {
            Some(Err(BuilderError::RecompressionUnsupported))
        }
    } else if n.action == Action::NoAction {
        Some(Ok(verbatim(n)))
    } else {
        match node_data(n) {
            Some(Ok(b)) => if n.header@.len() + b.len() > usize::MAX {
                Some(Err(BuilderError::SizeMismatch))
            } else {
                let total = (n.header@.len() + b.len()) as usize;
                Some(Ok(spec_set_section_size(n.header@, total) + b))
            },
            other => other,
        }
    }
}

/// Rebuilding the node never writes outside its headers: every file it
/// rewrites has a full FFS header and every section a size field.
pub open spec fn build_safe(n: FfsNode) -> bool
    decreases n, 2int,
{
    match n.node_type {
        FfsType::Volume => n.action == Action::Remove || n.action == Action::NoAction || all_safe(
            n.children@,
            n.children@.len() as int,
        ),
        FfsType::File => n.action == Action::Remove || n.action == Action::NoAction || (
        n.header@.len() >= 23 && all_safe(n.children@, n.children@.len() as int)),
        FfsType::Section => n.action == Action::Remove || (spec_is_compressed_or_guided(n) && !(
        n.subtype == EFI_SECTION_GUID_DEFINED && spec_recompressable_guid(n) && n.children@.len()
            > 0)) || (!spec_is_compressed_or_guided(n) && n.action == Action::NoAction) || (
        n.header@.len() >= 3 && all_safe(n.children@, n.children@.len() as int)),
        FfsType::Padding | FfsType::FreeSpace => true,
        _ => all_safe(n.children@, n.children@.len() as int),
    }
}

/// The first `k` trees of `cs` are safe to rebuild.
pub open spec fn all_safe(cs: Seq<FfsNode>, k: int) -> bool
    decreases cs, k,
{
    if k <= 0 || k > cs.len() {
        true
    } else {
        build_safe(cs[k - 1]) && all_safe(cs, k - 1)
    }
}


/// What a build call did with its output buffer, given the node's expected
/// outcome: known bytes are appended, a known error leaves the buffer as it
/// was, and an outcome that involves fresh compression only appends on
/// success.
pub open spec fn build_outcome(
    s: Option<Result<Seq<u8>, BuilderError>>,
    before: Seq<u8>,
    after: Seq<u8>,
    r: Result<(), BuilderError>,
) -> bool {
    match s {
        Some(Ok(b)) => r is Ok && after == before + b,
        Some(Err(e)) => r == Err::<(), BuilderError>(e) && after == before,
        None => (r is Ok ==> after.len() >= before.len() && after.subrange(
            0,
            before.len() as int,
        ) == before) && (r is Err ==> after == before),
    }
}

/// A fold result known so far is a success holding `v`.
pub open spec fn known_ok(s: Option<Result<Seq<u8>, BuilderError>>, v: Seq<u8>) -> bool {
    s matches Some(res) ==> (res matches Ok(a) && a == v)
}

proof fn lemma_concat_sticky(cs: Seq<FfsNode>, k: int, m: int)
    requires
        0 <= k <= m <= cs.len(),
        !(concat_fold(cs, k) matches Some(Ok(_))),
    ensures
        concat_fold(cs, m) == concat_fold(cs, k),
    decreases m - k,
{
    if k < m {
        lemma_concat_sticky(cs, k, m - 1);
    }
}

proof fn lemma_aligned_sticky(cs: Seq<FfsNode>, k: int, m: int)
    requires
        0 <= k <= m <= cs.len(),
        !(aligned_fold(cs, k) matches Some(Ok(_))),
    ensures
        aligned_fold(cs, m) == aligned_fold(cs, k),
    decreases m - k,
{
    if k < m {
        lemma_aligned_sticky(cs, k, m - 1);
    }
}

proof fn lemma_vol_sticky(cs: Seq<FfsNode>, k: int, m: int, h: Seq<u8>, fill: u8)
    requires
        0 <= k <= m <= cs.len(),
        !(vol_fold(cs, k, h, fill) matches Some(Ok(_))),
    ensures
        vol_fold(cs, m, h, fill) == vol_fold(cs, k, h, fill),
    decreases m - k,
{
    if k < m {
        lemma_vol_sticky(cs, k, m - 1, h, fill);
    }
}

proof fn lemma_all_safe_at(cs: Seq<FfsNode>, m: int, k: int)
    requires
        0 <= k < m <= cs.len(),
        all_safe(cs, m),
    ensures
        build_safe(cs[k]),
    decreases m - k,
{
    if k < m - 1 {
        lemma_all_safe_at(cs, m - 1, k);
    }
}

fn push_verbatim(node: &FfsNode, out: &mut Vec<u8>)
    ensures
        final(out)@ == old(out)@ + verbatim(*node),
{
    push_all(out, node.header.as_slice());
    push_all(out, node.body.as_slice());
    push_all(out, node.tail.as_slice());
    assert(out@ =~= old(out)@ + verbatim(*node));
}

fn append_bytes(out: &mut Vec<u8>, b: &Vec<u8>)
    ensures
        final(out)@ == old(out)@ + b@,
        final(out)@.len() >= old(out)@.len(),
        final(out)@.subrange(0, old(out)@.len() as int) == old(out)@,
{
    push_all(out, b.as_slice());
    assert(out@.subrange(0, old(out)@.len() as int) =~= old(out)@);
}

fn copy_vec(v: &Vec<u8>) -> (r: Vec<u8>)
    ensures
        r@ == v@,
{
    let mut r: Vec<u8> = Vec::new();
    push_all(&mut r, v.as_slice());
    r
}

/// Rebuilds the children of a file or plain section into their data.
fn build_aligned_children(node: &FfsNode, data: &mut Vec<u8>) -> (r: Result<(), BuilderError>)
    requires
        all_safe(node.children@, node.children@.len() as int),
        old(data)@.len() == 0,
    ensures
        build_outcome(
            aligned_fold(node.children@, node.children@.len() as int),
            old(data)@,
            final(data)@,
            r,
        ),
    decreases node, 0int,
{
    let ghost cs = node.children@;
    let n = node.children.len();
    let mut body: Vec<u8> = Vec::new();
    let mut k: usize = 0;
    while k < n
        invariant
            n == cs.len(),
            cs == node.children@,
            k <= n,
            all_safe(cs, n as int),
            known_ok(aligned_fold(cs, k as int), body@),
            !(aligned_fold(cs, k as int) matches Some(Err(_))),
        decreases n - k,
    {
        let child = &node.children[k];
        proof {
            lemma_all_safe_at(cs, n as int, k as int);
        }
        let ghost before = body@;
        let rc = build_node(child, &mut body);
        match rc {
            Err(e) => {
                proof {
                    if aligned_fold(cs, k + 1) matches Some(Ok(_)) {
                    } else {
                        lemma_aligned_sticky(cs, k + 1, n as int);
                    }
                }
                return Err(e);
            },
            Ok(()) => {},
        }
        if body.len() > usize::MAX - 3 {
            proof {
                lemma_aligned_sticky(cs, k + 1, n as int);
            }
            return Err(BuilderError::SizeMismatch);
        }
        let target = align4(body.len());
        pad_to(&mut body, target, 0u8);
        k = k + 1;
    }
    append_bytes(data, &body);
    Ok(())
}


/// Rebuilds any node, appending its bytes to `out`.
pub fn build_node(node: &FfsNode, out: &mut Vec<u8>) -> (r: Result<(), BuilderError>)
    requires
        build_safe(*node),
    ensures
        build_outcome(spec_build(*node), old(out)@, final(out)@, r),
    decreases node, 3int,
{
    match node.node_type {
        FfsType::Volume => {
            assert(spec_build(*node) == spec_build_volume(*node));
            build_volume(node, out)
        },
        FfsType::File => build_file(node, out),
        FfsType::Section => build_section(node, out),
        FfsType::Padding | FfsType::FreeSpace => {
            push_all(out, node.body.as_slice());
            Ok(())
        },
        _ => {
            let ghost cs = node.children@;
            let n = node.children.len();
            let mut v: Vec<u8> = Vec::new();
            let mut k: usize = 0;
            assert(spec_build(*node) == concat_fold(cs, n as int));
            while k < n
                invariant
                    spec_build(*node) == concat_fold(cs, n as int),
                    n == cs.len(),
                    cs == node.children@,
                    k <= n,
                    all_safe(cs, n as int),
                    known_ok(concat_fold(cs, k as int), v@),
                    !(concat_fold(cs, k as int) matches Some(Err(_))),
                decreases n - k,
            {
                proof {
                    lemma_all_safe_at(cs, n as int, k as int);
                }
                let ghost before = v@;
                let rc = build_node(&node.children[k], &mut v);
                match rc {
                    Err(e) => {
                        proof {
                            assert(spec_build(cs[k as int]) matches Some(Err(e2)) ==> e2 == e);
                            assert(!(concat_fold(cs, k + 1) matches Some(Ok(_))));
                            lemma_concat_sticky(cs, k + 1, n as int);
                            assert(concat_fold(cs, k + 1) matches Some(Err(e2)) ==> e2 == e);
                            assert(spec_build(*node) == concat_fold(cs, n as int));
                        }
                        return Err(e);
                    },
                    Ok(()) => {},
                }
                k = k + 1;
            }
            append_bytes(out, &v);
            Ok(())
        },
    }
}

/// Rebuilds a volume, appending its bytes to `out`.
pub fn build_volume(node: &FfsNode, out: &mut Vec<u8>) -> (r: Result<(), BuilderError>)
    requires
        node.node_type == FfsType::Volume,
        build_safe(*node),
    ensures
        build_outcome(spec_build_volume(*node), old(out)@, final(out)@, r),
    decreases node, 2int,
{
    if node.action == Action::Remove {
        assert(old(out)@ + Seq::<u8>::empty() =~= old(out)@);
        return Ok(());
    }
    if node.action == Action::NoAction {
        push_verbatim(node, out);
        return Ok(());
    }
    if node.body.len() > usize::MAX - node.header.len() {
        return Err(BuilderError::SizeMismatch);
    }
    let cap = node.header.len() + node.body.len();
    let fill: u8 = match &node.parsing_data {
        ParsingData::Volume(vd) => vd.empty_byte,
        _ => 0xFF,
    };
    let ghost cs = node.children@;
    let ghost h = node.header@;
    let n = node.children.len();
    let mut v = copy_vec(&node.header);
    let mut k: usize = 0;
    while k < n
        invariant
            node.action != Action::Remove,
            node.action != Action::NoAction,
            node.header@.len() + node.body@.len() <= usize::MAX,
            out@ == old(out)@,
            n == cs.len(),
            cs == node.children@,
            h == node.header@,
            fill == spec_empty_byte(*node),
            k <= n,
            all_safe(cs, n as int),
            known_ok(vol_fold(cs, k as int, h, fill), v@),
            !(vol_fold(cs, k as int, h, fill) matches Some(Err(_))),
        decreases n - k,
    {
        let child = &node.children[k];
        if child.action == Action::Remove {
            k = k + 1;
            continue;
        }
        if v.len() > usize::MAX - 7 {
            proof {
                lemma_vol_sticky(cs, k + 1, n as int, h, fill);
            }
            return Err(BuilderError::SizeMismatch);
        }
        let target = align8(v.len());
        pad_to(&mut v, target, fill);
        proof {
            lemma_all_safe_at(cs, n as int, k as int);
        }
        let rc = build_node(child, &mut v);
        match rc {
            Err(e) => {
                proof {
                    assert(child == cs[k as int]);
                    assert(!(vol_fold(cs, k + 1, h, fill) matches Some(Ok(_))));
                    lemma_vol_sticky(cs, k + 1, n as int, h, fill);
                    assert(vol_fold(cs, k + 1, h, fill) matches Some(Err(e2)) ==> e2 == e);
                    assert(spec_build_volume(*node) == vol_fold(cs, n as int, h, fill));
                }
                return Err(e);
            },
            Ok(()) => {},
        }
        k = k + 1;
    }
    if v.len() > cap {
        return Err(BuilderError::SizeMismatch);
    }
    pad_to(&mut v, cap, fill);
    push_all(&mut v, node.tail.as_slice());
    append_bytes(out, &v);
    Ok(())
}

/// Rebuilds an FFS file, appending its bytes to `out`.
pub fn build_file(node: &FfsNode, out: &mut Vec<u8>) -> (r: Result<(), BuilderError>)
    requires
        node.node_type == FfsType::File,
        build_safe(*node),
    ensures
        build_outcome(spec_build_file(*node), old(out)@, final(out)@, r),
    decreases node, 2int,
{
    if node.action == Action::Remove {
        assert(old(out)@ + Seq::<u8>::empty() =~= old(out)@);
        return Ok(());
    }
    if node.action == Action::NoAction {
        push_verbatim(node, out);
        return Ok(());
    }
    let mut body: Vec<u8> = Vec::new();
    if node.children.len() == 0 {
        body = copy_vec(&node.body);
    } else {
        build_aligned_children(node, &mut body)?;
    }
    let hl = node.header.len();
    let tl = node.tail.len();
    if body.len() > usize::MAX - hl || tl > usize::MAX - hl - body.len() {
        return Err(BuilderError::SizeMismatch);
    }
    let total = hl + body.len() + tl;
    let mut header = copy_vec(&node.header);
    set_ffs_size(header.as_mut_slice(), total);
    recompute_ffs_checksums(header.as_mut_slice(), body.as_slice());
    push_all(&mut header, body.as_slice());
    push_all(&mut header, node.tail.as_slice());
    append_bytes(out, &header);
    Ok(())
}

/// The payload offset of a GUID-defined section (bytes 16..18 of its body
/// hold it counted from the section start) less the 4-byte header: the
/// length of the guided-section prefix kept in front of the stream.
pub open spec fn guided_prefix_len(n: FfsNode) -> int {
    le16(n.body@, 16) - 4
}

/// The bytes of a recompressed GUID-defined section: the header with the new
/// size, the original prefix, and the stream.
pub open spec fn recompressed_bytes(n: FfsNode, stream: Seq<u8>) -> Seq<u8> {
    let p = guided_prefix_len(n);
    spec_set_section_size(n.header@, (n.header@.len() + p + stream.len()) as usize)
        + n.body@.subrange(0, p) + stream
}

/// What recompressing the LZMA-guided section `n` whose children rebuild to
/// `cb` gives: the children compressed with the default settings (a failure
/// of that is passed on), then a section whose prefix the body does not hold
/// in full (the payload offset at bytes 16..18 of the body, less the 4-byte
/// header, must give a prefix of at least 20 bytes) is refused, a size that
/// does not fit is refused, and otherwise the header with the new size, the
/// prefix and the stream.
pub open spec fn recompress_outcome(n: FfsNode, cb: Seq<u8>) -> Result<Seq<u8>, BuilderError> {
    match spec_compress_lzma(cb) {
        Err(e) => Err(BuilderError::Compression(e)),
        Ok(st) => if n.body@.len() < 18 || le16(n.body@, 16) < 4 || guided_prefix_len(n) < 20
            || guided_prefix_len(n) > n.body@.len() {
            Err(BuilderError::RecompressionUnsupported)
        } else if n.header@.len() + guided_prefix_len(n) + st.len() > usize::MAX {
            Err(BuilderError::SizeMismatch)
        } else {
            Ok(recompressed_bytes(n, st))
        },
    }
}

/// A section that rebuilding recompresses: a changed LZMA-guided section
/// with children.
pub open spec fn spec_recompresses(n: FfsNode) -> bool {
    &&& n.action != Action::Remove
    &&& spec_is_compressed_or_guided(n)
    &&& !(n.action == Action::NoAction && !spec_subtree_dirty(n))
    &&& n.subtype == EFI_SECTION_GUID_DEFINED
    &&& spec_recompressable_guid(n)
    &&& n.children@.len() > 0
}

/// Recompresses an LZMA-guided section: its children rebuilt and aligned,
/// compressed as one stream, behind the section's original prefix.
pub fn build_recompressed_guided(node: &FfsNode, out: &mut Vec<u8>) -> (r: Result<(), BuilderError>)
    requires
        all_safe(node.children@, node.children@.len() as int),
        node.header@.len() >= 3,
        node.children@.len() > 0,
    ensures
        build_outcome(
            match node_data(*node) {
                Some(Ok(cb)) => Some(recompress_outcome(*node, cb)),
                other => other,
            },
            old(out)@,
            final(out)@,
            r,
        ),
    decreases node, 1int,
{
    let mut children: Vec<u8> = Vec::new();
    match build_aligned_children(node, &mut children) {
        Ok(()) => {},
        Err(e) => return Err(e),
    }
    let stream = match compress_lzma(children.as_slice()) {
        Ok(s) => s,
        Err(e) => return Err(BuilderError::Compression(e)),
    };
    if node.body.len() < 18 {
        return Err(BuilderError::RecompressionUnsupported);
    }
    let data_offset = read_u16(node.body.as_slice(), 16) as usize;
    if data_offset < 4 {
        return Err(BuilderError::RecompressionUnsupported);
    }
    let prefix_len = data_offset - 4;
    if prefix_len < 20 || prefix_len > node.body.len() {
        return Err(BuilderError::RecompressionUnsupported);
    }
    let hl = node.header.len();
    if prefix_len > usize::MAX - hl || stream.len() > usize::MAX - hl - prefix_len {
        return Err(BuilderError::SizeMismatch);
    }
    let total = hl + prefix_len + stream.len();
    let mut bytes = copy_vec(&node.header);
    set_section_size(bytes.as_mut_slice(), total);
    push_all(&mut bytes, vstd::slice::slice_subrange(node.body.as_slice(), 0, prefix_len));
    push_all(&mut bytes, stream.as_slice());
    assert(bytes@ == recompressed_bytes(*node, stream@));
    append_bytes(out, &bytes);
    Ok(())
}

/// Rebuilds a section, appending its bytes to `out`.
pub fn build_section(node: &FfsNode, out: &mut Vec<u8>) -> (r: Result<(), BuilderError>)
    requires
        node.node_type == FfsType::Section,
        build_safe(*node),
    ensures
        build_outcome(spec_build_section(*node), old(out)@, final(out)@, r),
    decreases node, 2int,
{
    if node.action == Action::Remove {
        assert(old(out)@ + Seq::<u8>::empty() =~= old(out)@);
        return Ok(());
    }
    if is_compressed_or_guided(node) {
        if node.action == Action::NoAction && !subtree_dirty(node) {
            push_verbatim(node, out);
            return Ok(());
        }
        if node.subtype == EFI_SECTION_GUID_DEFINED && recompressable_guid(node)
            && node.children.len() > 0 {
            return build_recompressed_guided(node, out);
        }
        return Err(BuilderError::RecompressionUnsupported);
    }
    if node.action == Action::NoAction {
        push_verbatim(node, out);
        return Ok(());
    }
    let mut body: Vec<u8> = Vec::new();
    if node.children.len() == 0 {
        body = copy_vec(&node.body);
    } else {
        build_aligned_children(node, &mut body)?;
    }
    let hl = node.header.len();
    if body.len() > usize::MAX - hl {
        return Err(BuilderError::SizeMismatch);
    }
    let total = hl + body.len();
    let mut header = copy_vec(&node.header);
    set_section_size(header.as_mut_slice(), total);
    push_all(&mut header, body.as_slice());
    append_bytes(out, &header);
    Ok(())
}

/// Serialises the whole image.
pub fn build_image(image: &Image) -> (r: Result<Vec<u8>, BuilderError>)
    requires
        build_safe(image.root),
    ensures
        spec_build(image.root) is Some,
        spec_build(image.root) matches Some(Ok(b)) ==> (r matches Ok(v) && v@ == b),
        spec_build(image.root) matches Some(Err(e)) ==> r == Err::<Vec<u8>, BuilderError>(e),
{
    proof {
        law_build_is_total(image.root);
    }
    let mut out: Vec<u8> = Vec::new();
    build_node(&image.root, &mut out)?;
    assert(Seq::<u8>::empty() + out@ =~= out@);
    Ok(out)
}


/// A rebuilt volume whose erase polarity is known is laid out with that
/// polarity byte: the alignment gap before each surviving child and the free
/// space after the last one, up to the volume's original extent, all hold
/// `empty_byte`.
pub proof fn law_volume_gaps_hold_the_erase_byte(n: FfsNode, vd: VolumeParsingData)
    requires
        n.node_type == FfsType::Volume,
        n.parsing_data == ParsingData::Volume(vd),
        n.action != Action::Remove,
        n.action != Action::NoAction,
        n.header@.len() + n.body@.len() <= usize::MAX,
    ensures
        match vol_fold(n.children@, n.children@.len() as int, n.header@, vd.empty_byte) {
            Some(Ok(acc)) => acc.len() <= n.header@.len() + n.body@.len() ==> spec_build(n) == Some(
                Ok::<Seq<u8>, BuilderError>(
                    padded(acc, (n.header@.len() + n.body@.len()) as int, vd.empty_byte) + n.tail@,
                ),
            ),
            _ => true,
        },
{
}

/// Each surviving child of a rebuilt volume starts at an 8-byte boundary
/// from the volume start: what comes before it is padded with fewer than
/// eight fill bytes up to that boundary, then the child's bytes follow; a
/// removed child adds nothing.
pub proof fn law_volume_children_start_on_8_bytes(cs: Seq<FfsNode>, k: int, h: Seq<u8>, fill: u8)
    requires
        1 <= k <= cs.len(),
    ensures
        match (vol_fold(cs, k - 1, h, fill), vol_fold(cs, k, h, fill)) {
            (Some(Ok(prev)), Some(Ok(acc))) => if cs[k - 1].action == Action::Remove {
                acc == prev
            } else {
                exists|gap: int|
                    #![trigger prev.len() + gap]
                    0 <= gap < 8 && (prev.len() + gap) % 8 == 0 && acc.len() >= prev.len() + gap
                        && acc.subrange(0, prev.len() as int) == prev && (forall|i: int|
                        prev.len() <= i < prev.len() + gap ==> acc[i] == fill) && spec_build(cs[k - 1])
                        == Some(Ok::<Seq<u8>, BuilderError>(acc.subrange(prev.len() + gap, acc.len() as int)))
            },
            _ => true,
        },
{
    if let (Some(Ok(prev)), Some(Ok(acc))) = (vol_fold(cs, k - 1, h, fill), vol_fold(cs, k, h, fill)) {
        if cs[k - 1].action != Action::Remove {
            let target = round_up(prev.len() as int, 8);
            let gap = target - prev.len();
            assert(0 <= gap < 8 && target % 8 == 0) by (nonlinear_arith)
                requires
                    target == ((prev.len() + 8 - 1) / 8) * 8,
                    gap == target - prev.len(),
            ;
            if let Some(Ok(b)) = spec_build(cs[k - 1]) {
                let pd = padded(prev, target, fill);
                assert(acc == pd + b);
                assert(pd.len() == prev.len() + gap);
                assert(acc.subrange(0, prev.len() as int) =~= prev);
                assert(acc.subrange(prev.len() + gap, acc.len() as int) =~= b);
                assert(prev.len() + gap == target);
            }
        }
    }
}

/// Every tree has a rebuild outcome: its bytes or the error it is refused
/// with (recompressed sections included, over the named encoder output).
pub proof fn law_build_is_total(n: FfsNode)
    ensures
        spec_build(n) is Some,
    decreases n, 3int,
{
    match n.node_type {
        FfsType::Volume => lemma_volume_known(n),
        FfsType::File => lemma_node_data_known(n),
        FfsType::Section => lemma_node_data_known(n),
        FfsType::Padding | FfsType::FreeSpace => {},
        _ => lemma_concat_known(n.children@, n.children@.len() as int),
    }
}

proof fn lemma_volume_known(n: FfsNode)
    ensures
        spec_build_volume(n) is Some,
    decreases n, 2int,
{
    lemma_vol_known(n.children@, n.children@.len() as int, n.header@, spec_empty_byte(n));
}

proof fn lemma_node_data_known(n: FfsNode)
    ensures
        node_data(n) is Some,
        spec_build_file(n) is Some,
        spec_build_section(n) is Some,
    decreases n, 1int,
{
    if n.children@.len() > 0 {
        lemma_aligned_known(n.children@, n.children@.len() as int);
    }
}

proof fn lemma_concat_known(cs: Seq<FfsNode>, k: int)
    ensures
        concat_fold(cs, k) is Some,
    decreases cs, k,
{
    if !(k <= 0 || k > cs.len()) {
        lemma_concat_known(cs, k - 1);
        law_build_is_total(cs[k - 1]);
    }
}

proof fn lemma_aligned_known(cs: Seq<FfsNode>, k: int)
    ensures
        aligned_fold(cs, k) is Some,
    decreases cs, k,
{
    if !(k <= 0 || k > cs.len()) {
        lemma_aligned_known(cs, k - 1);
        law_build_is_total(cs[k - 1]);
    }
}

proof fn lemma_vol_known(cs: Seq<FfsNode>, k: int, h: Seq<u8>, fill: u8)
    ensures
        vol_fold(cs, k, h, fill) is Some,
    decreases cs, k,
{
    if !(k <= 0 || k > cs.len()) {
        lemma_vol_known(cs, k - 1, h, fill);
        law_build_is_total(cs[k - 1]);
    }
}


/// The bytes a tree was parsed from: containers are their children back to
/// back, padding and free space their body, every other node its header,
/// body and tail.
pub open spec fn original_bytes(n: FfsNode) -> Seq<u8>
    decreases n, 1int,
{
    match n.node_type {
        FfsType::Volume | FfsType::File | FfsType::Section => verbatim(n),
        FfsType::Padding | FfsType::FreeSpace => n.body@,
        _ => original_concat(n.children@, n.children@.len() as int),
    }
}

pub open spec fn original_concat(cs: Seq<FfsNode>, k: int) -> Seq<u8>
    decreases cs, k,
{
    if k <= 0 || k > cs.len() {
        Seq::empty()
    } else {
        original_concat(cs, k - 1) + original_bytes(cs[k - 1])
    }
}

proof fn lemma_clean_concat(cs: Seq<FfsNode>, k: int)
    requires
        0 <= k <= cs.len(),
        !any_dirty(cs, k),
    ensures
        concat_fold(cs, k) == Some(Ok::<Seq<u8>, BuilderError>(original_concat(cs, k))),
    decreases cs, k,
{
    if k > 0 {
        lemma_clean_concat(cs, k - 1);
        law_clean_tree_rebuilds_unchanged(cs[k - 1]);
    }
}

/// A tree with no edit pending anywhere rebuilds to exactly the bytes it
/// was parsed from.
pub proof fn law_clean_tree_rebuilds_unchanged(n: FfsNode)
    requires
        !spec_subtree_dirty(n),
    ensures
        spec_build(n) == Some(Ok::<Seq<u8>, BuilderError>(original_bytes(n))),
    decreases n, 2int,
{
    match n.node_type {
        FfsType::Volume | FfsType::File | FfsType::Section | FfsType::Padding
        | FfsType::FreeSpace => {},
        _ => {
            lemma_clean_concat(n.children@, n.children@.len() as int);
        },
    }
}

/// A rebuilt plain section whose new size fits the 24-bit field (and is not
/// the 0xFFFFFF escape) declares exactly its own length.
pub proof fn law_rebuilt_section_declares_its_length(n: FfsNode)
    requires
        n.node_type == FfsType::Section,
        n.action != Action::Remove,
        n.action != Action::NoAction,
        !spec_is_compressed_or_guided(n),
        !spec_is_large_section(n.header@),
        n.header@.len() >= 3,
        node_data(n) matches Some(Ok(b)) && n.header@.len() + b.len() < 0xFF_FFFF,
    ensures
        spec_build(n) matches Some(Ok(out)) && crate::ffs::spec_section_size(out) == out.len(),
{
    let b = match node_data(n) {
        Some(Ok(b)) => b,
        _ => Seq::empty(),
    };
    let total = (n.header@.len() + b.len()) as usize;
    let h2 = spec_set_section_size(n.header@, total);
    let out = h2 + b;
    crate::ffs::law_uint24_roundtrip(total as u32);
    assert(h2.subrange(0, 3) =~= spec_uint24(total as u32));
    assert(out[0] == h2[0] && out[1] == h2[1] && out[2] == h2[2]);
    assert(crate::bytes::le24(out, 0) == crate::bytes::le24(spec_uint24(total as u32), 0));
}

} // verus!
