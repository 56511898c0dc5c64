//! Firmware File System constants and the small header encodings shared by
//! volumes, files and sections: checksums, 24-bit sizes, "large" headers.

use vstd::prelude::*;
use crate::bytes::{le24, le32, read_u24, read_u32};
use crate::guid::{Guid, lemma_guid_len};

verus! {

broadcast use lemma_guid_len;

/// Firmware volume header signature `_FVH`.
pub const EFI_FVH_SIGNATURE: u32 = 0x4856_465F;
/// Volume attribute: erased flash reads as 0xFF.
pub const EFI_FVB2_ERASE_POLARITY: u32 = 0x0000_0800;

pub const EFI_SECTION_COMPRESSION: u8 = 0x01;
pub const EFI_SECTION_GUID_DEFINED: u8 = 0x02;
pub const EFI_SECTION_PE32: u8 = 0x10;
pub const EFI_SECTION_TE: u8 = 0x12;
pub const EFI_SECTION_VERSION: u8 = 0x14;
pub const EFI_SECTION_UI: u8 = 0x15;
pub const EFI_SECTION_FV_IMAGE: u8 = 0x17;
pub const EFI_SECTION_FREEFORM_SUBTYPE_GUID: u8 = 0x18;
pub const EFI_SECTION_RAW: u8 = 0x19;
pub const EFI_SECTION_DEPEX: u8 = 0x1C;

pub const EFI_FV_FILETYPE_RAW: u8 = 0x01;

/// Stored bytes of the Tiano-compression GUID a31280ad-481e-41b6-95e8-127f4c984779.
pub open spec fn tiano_guid_bytes() -> Seq<u8> {
    seq![0xAD, 0x80, 0x12, 0xA3, 0x1E, 0x48, 0xB6, 0x41, 0x95, 0xE8, 0x12, 0x7F, 0x4C, 0x98, 0x47, 0x79]
}

/// Stored bytes of the LZMA GUID ee4e5898-3914-4259-9d6e-dc7bd79403cf.
pub open spec fn lzma_guid_bytes() -> Seq<u8> {
    seq![0x98, 0x58, 0x4E, 0xEE, 0x14, 0x39, 0x59, 0x42, 0x9D, 0x6E, 0xDC, 0x7B, 0xD7, 0x94, 0x03, 0xCF]
}

/// Stored bytes of the HP LZMA GUID 0ed85e23-f253-413f-a03c-901987b04397.
pub open spec fn lzma_hp_guid_bytes() -> Seq<u8> {
    seq![0x23, 0x5E, 0xD8, 0x0E, 0x53, 0xF2, 0x3F, 0x41, 0xA0, 0x3C, 0x90, 0x19, 0x87, 0xB0, 0x43, 0x97]
}

/// Stored bytes of the MS LZMA GUID bd9921ea-ed91-404a-8b2f-b4d724747c8c.
pub open spec fn lzma_ms_guid_bytes() -> Seq<u8> {
    seq![0xEA, 0x21, 0x99, 0xBD, 0x91, 0xED, 0x4A, 0x40, 0x8B, 0x2F, 0xB4, 0xD7, 0x24, 0x74, 0x7C, 0x8C]
}

/// Stored bytes of the LZMA-x86 GUID d42ae6bd-1352-4bfb-909a-ca72a6eae889.
pub open spec fn lzmaf86_guid_bytes() -> Seq<u8> {
    seq![0xBD, 0xE6, 0x2A, 0xD4, 0x52, 0x13, 0xFB, 0x4B, 0x90, 0x9A, 0xCA, 0x72, 0xA6, 0xEA, 0xE8, 0x89]
}

/// Stored bytes of the CRC32 GUID fc1bcdb0-7d31-49aa-936a-a4600d9dd083.
pub open spec fn crc32_guid_bytes() -> Seq<u8> {
    seq![0xB0, 0xCD, 0x1B, 0xFC, 0x31, 0x7D, 0xAA, 0x49, 0x93, 0x6A, 0xA4, 0x60, 0x0D, 0x9D, 0xD0, 0x83]
}

pub fn tiano_guid() -> (g: Guid)
    ensures
        g@ == tiano_guid_bytes(),
{
    let g = Guid::from_bytes([0xAD, 0x80, 0x12, 0xA3, 0x1E, 0x48, 0xB6, 0x41, 0x95, 0xE8, 0x12, 0x7F, 0x4C, 0x98, 0x47, 0x79]);
    assert(g@ =~= tiano_guid_bytes());
    g
}

pub fn lzma_guid() -> (g: Guid)
    ensures
        g@ == lzma_guid_bytes(),
{
    let g = Guid::from_bytes([0x98, 0x58, 0x4E, 0xEE, 0x14, 0x39, 0x59, 0x42, 0x9D, 0x6E, 0xDC, 0x7B, 0xD7, 0x94, 0x03, 0xCF]);
    assert(g@ =~= lzma_guid_bytes());
    g
}

pub fn lzma_hp_guid() -> (g: Guid)
    ensures
        g@ == lzma_hp_guid_bytes(),
{
    let g = Guid::from_bytes([0x23, 0x5E, 0xD8, 0x0E, 0x53, 0xF2, 0x3F, 0x41, 0xA0, 0x3C, 0x90, 0x19, 0x87, 0xB0, 0x43, 0x97]);
    assert(g@ =~= lzma_hp_guid_bytes());
    g
}

pub fn lzma_ms_guid() -> (g: Guid)
    ensures
        g@ == lzma_ms_guid_bytes(),
{
    let g = Guid::from_bytes([0xEA, 0x21, 0x99, 0xBD, 0x91, 0xED, 0x4A, 0x40, 0x8B, 0x2F, 0xB4, 0xD7, 0x24, 0x74, 0x7C, 0x8C]);
    assert(g@ =~= lzma_ms_guid_bytes());
    g
}

pub fn lzmaf86_guid() -> (g: Guid)
    ensures
        g@ == lzmaf86_guid_bytes(),
{
    let g = Guid::from_bytes([0xBD, 0xE6, 0x2A, 0xD4, 0x52, 0x13, 0xFB, 0x4B, 0x90, 0x9A, 0xCA, 0x72, 0xA6, 0xEA, 0xE8, 0x89]);
    assert(g@ =~= lzmaf86_guid_bytes());
    g
}

pub fn crc32_guid() -> (g: Guid)
    ensures
        g@ == crc32_guid_bytes(),
{
    let g = Guid::from_bytes([0xB0, 0xCD, 0x1B, 0xFC, 0x31, 0x7D, 0xAA, 0x49, 0x93, 0x6A, 0xA4, 0x60, 0x0D, 0x9D, 0xD0, 0x83]);
    assert(g@ =~= crc32_guid_bytes());
    g
}

pub open spec fn spec_is_lzma_guid(g: Seq<u8>) -> bool {
    g == lzma_guid_bytes() || g == lzma_hp_guid_bytes() || g == lzma_ms_guid_bytes() || g
        == lzmaf86_guid_bytes()
}

/// LZMA flavours this engine can re-encode: all but the x86-filtered one.
pub open spec fn spec_is_recompressable_lzma_guid(g: Seq<u8>) -> bool {
    g == lzma_guid_bytes() || g == lzma_hp_guid_bytes() || g == lzma_ms_guid_bytes()
}

/// Any of the four LZMA GUIDs.
pub fn is_lzma_guid(g: &Guid) -> (r: bool)
    ensures
        r == spec_is_lzma_guid(g@),
{
    *g == lzma_guid() || *g == lzma_hp_guid() || *g == lzma_ms_guid() || *g == lzmaf86_guid()
}

pub fn is_recompressable_lzma_guid(g: &Guid) -> (r: bool)
    ensures
        r == spec_is_recompressable_lzma_guid(g@),
{
    *g == lzma_guid() || *g == lzma_hp_guid() || *g == lzma_ms_guid()
}

pub fn is_tiano_guid(g: &Guid) -> (r: bool)
    ensures
        r == (g@ == tiano_guid_bytes()),
{
    *g == tiano_guid()
}

/// Sum of all bytes, as an unbounded integer.
pub open spec fn byte_sum(s: Seq<u8>) -> int
    decreases s.len(),
{
    if s.len() == 0 {
        0
    } else {
        byte_sum(s.drop_last()) + s.last()
    }
}

/// The 8-bit two's-complement checksum: what makes the byte sum 0 mod 256.
pub open spec fn spec_checksum8(s: Seq<u8>) -> u8 {
    ((256 - byte_sum(s) % 256) % 256) as u8
}

/// The 16-bit complement of the byte sum (bytes, not words, are summed).
pub open spec fn spec_checksum16(s: Seq<u8>) -> u16 {
    ((65536 - byte_sum(s) % 65536) % 65536) as u16
}

pub proof fn lemma_byte_sum_nonneg(s: Seq<u8>)
    ensures
        byte_sum(s) >= 0,
    decreases s.len(),
{
    if s.len() > 0 {
        lemma_byte_sum_nonneg(s.drop_last());
    }
}

pub fn calculate_checksum8(data: &[u8]) -> (r: u8)
    ensures
        r == spec_checksum8(data@),
{
    let mut sum: u8 = 0;
    let mut k: usize = 0;
    while k < data.len()
        invariant
            k <= data@.len(),
            sum == byte_sum(data@.subrange(0, k as int)) % 256,
        decreases data@.len() - k,
    {
        assert(data@.subrange(0, k + 1).drop_last() =~= data@.subrange(0, k as int));
        sum = sum.wrapping_add(data[k]);
        k = k + 1;
    }
    assert(data@.subrange(0, data@.len() as int) =~= data@);
    proof {
        lemma_byte_sum_nonneg(data@);
    }
    0u8.wrapping_sub(sum)
}

pub fn calculate_checksum16(data: &[u8]) -> (r: u16)
    ensures
        r == spec_checksum16(data@),
{
    let mut sum: u16 = 0;
    let mut k: usize = 0;
    while k < data.len()
        invariant
            k <= data@.len(),
            sum == byte_sum(data@.subrange(0, k as int)) % 65536,
        decreases data@.len() - k,
    {
        assert(data@.subrange(0, k + 1).drop_last() =~= data@.subrange(0, k as int));
        sum = sum.wrapping_add(data[k] as u16);
        k = k + 1;
    }
    assert(data@.subrange(0, data@.len() as int) =~= data@);
    proof {
        lemma_byte_sum_nonneg(data@);
    }
    0u16.wrapping_sub(sum)
}

/// Appending the checksum of `data` to `data` gives a sequence whose byte
/// sum is 0 modulo 256: this is what makes a header "verify".
pub proof fn law_checksum8_closes_sum(data: Seq<u8>)
    ensures
        byte_sum(data.push(spec_checksum8(data))) % 256 == 0,
{
    lemma_byte_sum_nonneg(data);
    assert(data.push(spec_checksum8(data)).drop_last() =~= data);
}

/// Setting the last byte of a sequence to the checksum of the rest gives a
/// sequence whose checksum is zero.
pub proof fn law_checksum8_of_closed_data_is_zero(data: Seq<u8>)
    ensures
        spec_checksum8(data.push(spec_checksum8(data))) == 0,
{
    law_checksum8_closes_sum(data);
}

/// Little-endian low three bytes of `size`.
pub open spec fn spec_uint24(size: u32) -> Seq<u8> {
    seq![(size % 256) as u8, ((size / 256) % 256) as u8, ((size / 65536) % 256) as u8]
}

pub fn size_to_uint24(size: u32) -> (r: [u8; 3])
    ensures
        r@ == spec_uint24(size),
{
    let r = [(size & 0xFF) as u8, ((size >> 8u32) & 0xFF) as u8, ((size >> 16u32) & 0xFF) as u8];
    assert((size & 0xFF) == size % 256 && ((size >> 8u32) & 0xFF) == (size / 256) % 256 && ((size
        >> 16u32) & 0xFF) == (size / 65536) % 256) by (bit_vector);
    assert(r@ =~= spec_uint24(size));
    r
}

pub fn uint24_to_u32(b: [u8; 3]) -> (r: u32)
    ensures
        r == le24(b@, 0),
{
    let x = b[0] as u32;
    let y = b[1] as u32;
    let z = b[2] as u32;
    assert(x | (y << 8u32) | (z << 16u32) == x + 256 * y + 65536 * z) by (bit_vector)
        requires
            x < 256,
            y < 256,
            z < 256,
    ;
    x | (y << 8u32) | (z << 16u32)
}

/// Decoding an encoded 24-bit size gives the size back, for every size that
/// fits in 24 bits.
pub proof fn law_uint24_roundtrip(size: u32)
    requires
        size < 0x100_0000,
    ensures
        le24(spec_uint24(size), 0) == size,
{
}

/// Encoding a decoded 24-bit size gives the three bytes back.
pub proof fn law_uint24_bytes_roundtrip(b: Seq<u8>)
    requires
        b.len() == 3,
    ensures
        spec_uint24(le24(b, 0) as u32) == b,
{
    assert(spec_uint24(le24(b, 0) as u32) =~= b);
}

/// A section header whose 24-bit size field is 0xFFFFFF carries its size in
/// the four bytes that follow the type byte.
pub open spec fn spec_is_large_section(h: Seq<u8>) -> bool {
    h.len() >= 8 && h[0] == 0xFF && h[1] == 0xFF && h[2] == 0xFF
}

/// An FFS file header whose 24-bit size field is 0xFFFFFF carries a 64-bit
/// size at offset 24.
pub open spec fn spec_is_large_ffs(h: Seq<u8>) -> bool {
    h.len() >= 32 && h[20] == 0xFF && h[21] == 0xFF && h[22] == 0xFF
}

pub fn is_large_section(header: &[u8]) -> (r: bool)
    ensures
        r == spec_is_large_section(header@),
{
    header.len() >= 8 && header[0] == 0xFF && header[1] == 0xFF && header[2] == 0xFF
}

pub fn is_large_ffs(header: &[u8]) -> (r: bool)
    ensures
        r == spec_is_large_ffs(header@),
{
    header.len() >= 32 && header[20] == 0xFF && header[21] == 0xFF && header[22] == 0xFF
}

pub open spec fn spec_section_size(h: Seq<u8>) -> int {
    if spec_is_large_section(h) {
        le32(h, 4)
    } else {
        le24(h, 0)
    }
}

/// The size a section header declares; the header must hold its size field.
pub fn section_size(header: &[u8]) -> (r: u32)
    requires
        header@.len() >= 3,
    ensures
        r == spec_section_size(header@),
{
    if is_large_section(header) {
        read_u32(header, 4)
    } else {
        read_u24(header, 0)
    }
}

/// The size an FFS file header declares (the low 32 bits of the large form).
pub open spec fn spec_ffs_file_size(h: Seq<u8>) -> int {
    if spec_is_large_ffs(h) {
        le32(h, 24)
    } else {
        le24(h, 20)
    }
}

pub fn ffs_file_size(header: &[u8]) -> (r: u32)
    requires
        header@.len() >= 23,
    ensures
        r == spec_ffs_file_size(header@),
{
    if is_large_ffs(header) {
        read_u32(header, 24)
    } else {
        read_u24(header, 20)
    }
}

} // verus!
