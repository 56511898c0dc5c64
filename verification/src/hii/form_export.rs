//! Reading a form back into schema terms: the display mode and the numeric
//! range of a question opcode, and the form package that holds a form.

use vstd::prelude::*;
use crate::hii::formset_add::display_flags;
use crate::hii::ifr::{parse_form_package, spec_parse_form_package, RawForm};
use crate::hii::opcodes::{IFR_DISPLAY, IFR_DISPLAY_INT_DEC, IFR_DISPLAY_UINT_HEX};
use crate::hii::schema::DisplayMode;
use crate::hii::{form_package_ranges, spec_form_package_ranges};
use crate::types::FfsNode;

verus! {

/// The display mode the display bits (mask 0x30) of an opcode's flags
/// select: signed decimal, hexadecimal, else unsigned decimal.
pub open spec fn spec_display_mode(flags: u8) -> DisplayMode {
    if flags & IFR_DISPLAY == IFR_DISPLAY_INT_DEC {
        DisplayMode::IntDec
    } else if flags & IFR_DISPLAY == IFR_DISPLAY_UINT_HEX {
        DisplayMode::UintHex
    } else {
        DisplayMode::UintDec
    }
}

/// The display mode of a question from the flags byte of its opcode.
pub fn display_mode(flags: u8, size: u8) -> (d: DisplayMode)
    ensures
        d == spec_display_mode(flags),
{
    let bits = flags & IFR_DISPLAY;
    if bits == IFR_DISPLAY_INT_DEC {
        DisplayMode::IntDec
    } else if bits == IFR_DISPLAY_UINT_HEX {
        DisplayMode::UintHex
    } else {
        DisplayMode::UintDec
    }
}

/// Reading back the display flags a question is written with, together with
/// any size bits, gives its display mode again.
pub proof fn law_display_mode_round_trip(d: DisplayMode, size_bits: u8)
    requires
        size_bits < 4,
    ensures
        spec_display_mode(display_flags(d) | size_bits) == d,
{
    let f = display_flags(d);
    assert(f == 0x00 || f == 0x10 || f == 0x20);
    assert((0x00u8 | size_bits) & 0x30 == 0x00) by (bit_vector)
        requires
            size_bits < 4,
    ;
    assert((0x10u8 | size_bits) & 0x30 == 0x10) by (bit_vector)
        requires
            size_bits < 4,
    ;
    assert((0x20u8 | size_bits) & 0x30 == 0x20) by (bit_vector)
        requires
            size_bits < 4,
    ;
}

/// The little-endian value of the bytes of `s` from `i` up to `n`.
pub open spec fn le_from(s: Seq<u8>, i: int, n: int) -> nat
    decreases n - i,
{
    if i >= n {
        0
    } else {
        (s[i] + 256 * le_from(s, i + 1, n)) as nat
    }
}

/// `256` to the power `k`.
pub open spec fn pow256(k: nat) -> nat
    decreases k,
{
    if k == 0 {
        1
    } else {
        256 * pow256((k - 1) as nat)
    }
}

proof fn lemma_le_from_bound(s: Seq<u8>, i: int, n: int)
    requires
        0 <= i <= n <= s.len(),
    ensures
        le_from(s, i, n) < pow256((n - i) as nat),
    decreases n - i,
{
    if i < n {
        lemma_le_from_bound(s, i + 1, n);
        let r = le_from(s, i + 1, n);
        let p = pow256((n - i - 1) as nat);
        assert(s[i] + 256 * r < 256 * p) by (nonlinear_arith)
            requires
                r < p,
                s[i] < 256,
        ;
    }
}

/// The number of bytes `read_le_u64` takes: up to `count`, at most eight,
/// and no further than the end of `pkg`.
pub open spec fn le_take(len: nat, off: int, count: int) -> int {
    let c = if count < 8 {
        count
    } else {
        8
    };
    if off >= len {
        0
    } else if c < len - off {
        c
    } else {
        len - off
    }
}

/// Reads up to `count` (at most eight) bytes at `off` as a little-endian
/// value, stopping at the end of `pkg`; zero from past the end.
pub fn read_le_u64(pkg: &[u8], off: usize, count: usize) -> (v: u64)
    ensures
        v == le_from(pkg@, off as int, off + le_take(pkg@.len(), off as int, count as int)),
{
    let len = pkg.len();
    if off >= len {
        return 0;
    }
    let c = if count < 8 {
        count
    } else {
        8
    };
    let n = if c < len - off {
        c
    } else {
        len - off
    };
    let mut v: u64 = 0;
    let mut i = n;
    proof {
        lemma_le_from_bound(pkg@, off as int, (off + n) as int);
    }
    while i > 0
        invariant
            len == pkg@.len(),
            off + n <= len,
            n <= 8,
            i <= n,
            v == le_from(pkg@, off + i, (off + n) as int),
        decreases i,
    {
        i = i - 1;
        proof {
            lemma_le_from_bound(pkg@, off + i + 1, (off + n) as int);
            let k = (n - i - 1) as nat;
            assert(pow256(k) <= pow256(7)) by {
                lemma_pow256_mono(k, 7);
            }
            assert(pow256(7) == 72057594037927936) by {
                reveal_with_fuel(pow256, 8);
            }
            assert(256 * (v as int) + 255 <= u64::MAX) by (nonlinear_arith)
                requires
                    v < 72057594037927936,
            ;
        }
        v = (pkg[off + i] as u64) + 256 * v;
    }
    v
}

proof fn lemma_pow256_mono(a: nat, b: nat)
    requires
        a <= b,
    ensures
        pow256(a) <= pow256(b),
    decreases b,
{
    if a < b {
        lemma_pow256_mono(a, (b - 1) as nat);
    }
}

/// Where the `pos`-th value of a NUMERIC's MINMAXSTEP data starts, and how
/// many of its `size` bytes lie inside the opcode (`off`, `len`).
pub open spec fn minmax_field(off: int, len: int, size: int, pos: int) -> (int, int) {
    let start = off + 14 + pos * size;
    let avail = if off + len > start {
        off + len - start
    } else {
        0
    };
    (start, if size < avail {
        size
    } else {
        avail
    })
}

/// The value of one MINMAXSTEP field.
pub open spec fn minmax_value(pkg: Seq<u8>, off: int, len: int, size: int, pos: int) -> nat {
    let f = minmax_field(off, len, size, pos);
    le_from(pkg, f.0, f.0 + le_take(pkg.len(), f.0, f.1))
}

/// Minimum, maximum and step of a NUMERIC opcode at `off` of length `len`,
/// `size` bytes each, each cut short at the end of the opcode.
pub fn numeric_min_max_step(pkg: &[u8], off: usize, len: usize, size: u8) -> (r: (u64, u64, u64))
    requires
        off + len + 14 + 3 * 255 <= usize::MAX,
    ensures
        r.0 == minmax_value(pkg@, off as int, len as int, size as int, 0),
        r.1 == minmax_value(pkg@, off as int, len as int, size as int, 1),
        r.2 == minmax_value(pkg@, off as int, len as int, size as int, 2),
{
    let w = size as usize;
    let end = off + len;
    let s0 = off + 14;
    let s1 = off + 14 + w;
    let s2 = off + 14 + 2 * w;
    let a0 = if end > s0 { end - s0 } else { 0 };
    let a1 = if end > s1 { end - s1 } else { 0 };
    let a2 = if end > s2 { end - s2 } else { 0 };
    let min = read_le_u64(pkg, s0, if w < a0 { w } else { a0 });
    let max = read_le_u64(pkg, s1, if w < a1 { w } else { a1 });
    let step = read_le_u64(pkg, s2, if w < a2 { w } else { a2 });
    (min, max, step)
}

/// The first form package among the ranges of a section that declares form
/// `form_id`, as the index of its range.
pub open spec fn holds_form(pkg: Seq<u8>, form_id: u16) -> bool {
    spec_parse_form_package(pkg) matches Some((g, t, forms)) && exists|k: int|
        0 <= k < forms.len() && #[trigger] forms[k].form_id == form_id
}

/// The package of the first range (inside the body) that parses and
/// declares form `form_id`.
pub open spec fn first_holding(body: Seq<u8>, rs: Seq<(usize, usize)>, form_id: u16, i: int) -> Option<
    Seq<u8>,
>
    decreases rs.len() - i,
{
    if i < 0 || i >= rs.len() {
        None
    } else {
        let r = rs[i];
        if r.0 + r.1 <= body.len() && holds_form(body.subrange(r.0 as int, r.0 + r.1), form_id) {
            Some(body.subrange(r.0 as int, r.0 + r.1))
        } else {
            first_holding(body, rs, form_id, i + 1)
        }
    }
}

fn declares_form(forms: &Vec<RawForm>, form_id: u16) -> (r: bool)
    ensures
        r == exists|k: int| 0 <= k < forms@.len() && #[trigger] forms@[k].form_id == form_id,
{
    let mut k: usize = 0;
    while k < forms.len()
        invariant
            k <= forms@.len(),
            forall|m: int| 0 <= m < k ==> forms@[m].form_id != form_id,
        decreases forms@.len() - k,
    {
        if forms[k].form_id == form_id {
            return true;
        }
        k = k + 1;
    }
    false
}

/// The form package of a section that declares form `form_id`.
pub fn find_form_package(node: &FfsNode, form_id: u16) -> (r: Option<&[u8]>)
    ensures
        match r {
            Some(p) => first_holding(node.body@, spec_form_package_ranges(node.subtype, node.body@), form_id, 0)
                == Some(p@),
            None => first_holding(node.body@, spec_form_package_ranges(node.subtype, node.body@), form_id, 0)
                is None,
        },
{
    let ranges = form_package_ranges(node);
    let body = node.body.as_slice();
    let n = body.len();
    let mut k: usize = 0;
    while k < ranges.len()
        invariant
            n == body@.len(),
            body@ == node.body@,
            k <= ranges@.len(),
            ranges@ == spec_form_package_ranges(node.subtype, node.body@),
            first_holding(body@, ranges@, form_id, 0) == first_holding(body@, ranges@, form_id, k as int),
        decreases ranges@.len() - k,
    {
        let (start, len) = ranges[k];
        if start <= n && len <= n - start {
            let pkg = vstd::slice::slice_subrange(body, start, start + len);
            match parse_form_package(pkg) {
                Some(fs) => {
                    if declares_form(&fs.forms, form_id) {
                        assert(holds_form(pkg@, form_id));
                        assert(first_holding(body@, ranges@, form_id, k as int) == Some(pkg@));
                        return Some(pkg);
                    }
                },
                None => {},
            }
        }
        k = k + 1;
    }
    None
}

} // verus!
