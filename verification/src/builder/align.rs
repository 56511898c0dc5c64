//! Alignment of offsets inside volumes (8 bytes for files) and files
//! (4 bytes for sections), and padding up to an aligned offset.

use vstd::prelude::*;

verus! {

pub const FFS_ALIGN: usize = 8;
pub const SECTION_ALIGN: usize = 4;

/// `a` is a power of two.
pub open spec fn is_pow2(a: usize) -> bool {
    a > 0 && a & ((a - 1) as usize) == 0
}

/// The smallest multiple of `align` that is not below `offset`.
pub open spec fn round_up(offset: int, align: int) -> int {
    ((offset + align - 1) / align) * align
}

/// Rounds `offset` up to a multiple of the power of two `align`.
pub fn align_up(offset: usize, align: usize) -> (r: usize)
    requires
        is_pow2(align),
        offset + align - 1 <= usize::MAX,
    ensures
        r == (offset + align - 1) as usize & !((align - 1) as usize),
        r & ((align - 1) as usize) == 0,
        offset <= r < offset + align,
{
    let am = align - 1;
    let m = offset + am;
    let r = m & !am;
    assert(align > 0 && align & am == 0 && am == align - 1 && m == offset + am ==> (m & !am) & am
        == 0 && offset <= (m & !am) && (m & !am) <= m) by (bit_vector);
    r
}

/// Next multiple of 8 (FFS file alignment inside a volume).
pub fn align8(offset: usize) -> (r: usize)
    requires
        offset + 7 <= usize::MAX,
    ensures
        r == round_up(offset as int, 8),
        r % 8 == 0,
        offset <= r < offset + 8,
{
    assert(8usize & 7usize == 0) by (bit_vector);
    let r = align_up(offset, FFS_ALIGN);
    assert(r & 7 == 0 ==> r % 8 == 0) by (bit_vector);
    r
}

/// Next multiple of 4 (section alignment inside a file).
pub fn align4(offset: usize) -> (r: usize)
    requires
        offset + 3 <= usize::MAX,
    ensures
        r == round_up(offset as int, 4),
        r % 4 == 0,
        offset <= r < offset + 4,
{
    assert(4usize & 3usize == 0) by (bit_vector);
    let r = align_up(offset, SECTION_ALIGN);
    assert(r & 3 == 0 ==> r % 4 == 0) by (bit_vector);
    r
}

/// `s` grown with `fill` up to `target` bytes; unchanged when already that long.
pub open spec fn padded(s: Seq<u8>, target: int, fill: u8) -> Seq<u8> {
    if s.len() < target {
        s + Seq::new((target - s.len()) as nat, |i: int| fill)
    } else {
        s
    }
}

/// Grows `buf` with `fill` up to `target` bytes; never shrinks it.
pub fn pad_to(buf: &mut Vec<u8>, target: usize, fill: u8)
    ensures
        final(buf)@ == padded(old(buf)@, target as int, fill),
{
    if buf.len() < target {
        let start = buf.len();
        while buf.len() < target
            invariant
                start == old(buf)@.len(),
                start <= buf@.len() <= target,
                buf@ == old(buf)@ + Seq::new((buf@.len() - start) as nat, |i: int| fill),
            decreases target - buf@.len(),
        {
            buf.push(fill);
            assert(buf@ =~= old(buf)@ + Seq::new((buf@.len() - start) as nat, |i: int| fill));
        }
    }
}

} // verus!
